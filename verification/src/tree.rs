//! Grouping the panes of a session by repository and checkout.

use vstd::prelude::*;

use crate::model;
use crate::model::{
    normalize_path, Branch, BranchView, PaneNode, PaneNodeView, Refs, RefsView, RepoNode,
    RepoNodeView, Tree, Trouble, WorktreeNode, WorktreeNodeView,
};
use crate::ordered::OrderedMap;
use crate::port::{
    GitRef, GitRefView, Pane, PaneView, RefKind, Snapshot, Track, Worktree, WorktreeView,
};
use crate::shapes;
use crate::text;
use crate::text::{copied, listed, same};

verus! {

/// The repository and the checkout that a pane is in.
#[derive(Debug, Clone, PartialEq, Eq)]
pub struct PanePlacement {
    pub repo_key: String,
    pub checkout_path: String,
}

impl View for PanePlacement {
    type V = (Seq<char>, Seq<char>);

    open spec fn view(&self) -> (Seq<char>, Seq<char>) {
        (self.repo_key@, self.checkout_path@)
    }
}

/// A repository as it was read: what herdr lists of it, and its refs.
#[derive(Debug, PartialEq, Eq)]
pub struct RepoInput {
    pub repo_key: String,
    pub repo_root: String,
    pub display_name: String,
    pub worktrees: Vec<Worktree>,
    pub refs: Result<Vec<GitRef>, String>,
}

#[verifier::ext_equal]
pub struct RepoInputView {
    pub repo_key: Seq<char>,
    pub repo_root: Seq<char>,
    pub display_name: Seq<char>,
    pub worktrees: Seq<WorktreeView>,
    pub refs: Result<Seq<GitRefView>, Seq<char>>,
}

/// The refs that were read, or the words for why not.
pub open spec fn refs_view(refs: Result<Vec<GitRef>, String>) -> Result<Seq<GitRefView>, Seq<char>> {
    match refs {
        Ok(list) => Ok(shapes::views(list@)),
        Err(words) => Err(words@),
    }
}

impl View for RepoInput {
    type V = RepoInputView;

    open spec fn view(&self) -> RepoInputView {
        RepoInputView {
            repo_key: self.repo_key@,
            repo_root: self.repo_root@,
            display_name: self.display_name@,
            worktrees: shapes::views(self.worktrees@),
            refs: refs_view(self.refs),
        }
    }
}

/// Where each pane that could be placed is.
pub type Places = Map<Seq<char>, PanePlacement>;

/// The repository and the checkout that a pane is in.
pub open spec fn place_of(places: Places, pane: PaneView) -> Option<(Seq<char>, Seq<char>)> {
    if places.contains_key(pane.pane_id) {
        Some(places[pane.pane_id]@)
    } else {
        None
    }
}

// ---------------------------------------------------------------- panes

/// A text that holds something.
pub open spec fn filled(o: Option<Seq<char>>) -> bool {
    o matches Some(s) && s.len() > 0
}

/// What a pane is called: its label, its agent, or a title that it set.
pub open spec fn pane_name(pane: PaneView) -> Option<Seq<char>> {
    if filled(pane.label) {
        pane.label
    } else if filled(pane.agent) {
        pane.agent
    } else if filled(pane.terminal_title_stripped) {
        pane.terminal_title_stripped
    } else if filled(pane.title) {
        pane.title
    } else {
        None
    }
}

fn is_filled(o: &Option<String>) -> (is: bool)
    ensures
        is == filled(shapes::opt(*o)),
{
    match o {
        Some(s) => !s.as_str().is_empty(),
        None => false,
    }
}

/// A pane as the tree shows it.
pub open spec fn pane_node(pane: PaneView) -> PaneNodeView {
    PaneNodeView {
        pane_id: pane.pane_id,
        workspace_id: pane.workspace_id,
        tab_id: pane.tab_id,
        display_name: pane_name(pane),
        agent_status: pane.agent_status,
        focused: pane.focused,
    }
}

fn node_of_pane(pane: &Pane) -> (node: PaneNode)
    ensures
        node@ == pane_node(pane@),
{
    let display_name = if is_filled(&pane.label) {
        copied(&pane.label)
    } else if is_filled(&pane.agent) {
        copied(&pane.agent)
    } else if is_filled(&pane.terminal_title_stripped) {
        copied(&pane.terminal_title_stripped)
    } else if is_filled(&pane.title) {
        copied(&pane.title)
    } else {
        None
    };
    PaneNode {
        pane_id: pane.pane_id.clone(),
        workspace_id: pane.workspace_id.clone(),
        tab_id: pane.tab_id.clone(),
        display_name,
        agent_status: pane.agent_status,
        focused: pane.focused,
    }
}

/// The panes that are at one place, in the order of the session.
pub open spec fn panes_at(
    panes: Seq<PaneView>,
    places: Places,
    place: Option<(Seq<char>, Seq<char>)>,
) -> Seq<PaneNodeView>
    decreases panes.len(),
{
    if panes.len() == 0 {
        seq![]
    } else {
        let so_far = panes_at(panes.drop_last(), places, place);
        if place_of(places, panes.last()) == place {
            so_far.push(pane_node(panes.last()))
        } else {
            so_far
        }
    }
}

/// Whether a pane is in the checkout at `path` of the repository under `key`.
fn is_at(
    pane: &Pane,
    placements: &OrderedMap<PanePlacement>,
    key: &str,
    path: &str,
) -> (is: bool)
    ensures
        is == (place_of(placements@, pane@) == Some((key@, path@))),
{
    match placements.get(pane.pane_id.as_str()) {
        Some(place) => same(place.repo_key.as_str(), key) && same(
            place.checkout_path.as_str(),
            path,
        ),
        None => false,
    }
}

fn collect_panes_at(
    panes: &Vec<Pane>,
    placements: &OrderedMap<PanePlacement>,
    key: &str,
    path: &str,
) -> (out: Vec<PaneNode>)
    ensures
        shapes::views(out@) == panes_at(
            shapes::views(panes@),
            placements@,
            Some((key@, path@)),
        ),
{
    let ghost all = shapes::views(panes@);
    let mut out: Vec<PaneNode> = Vec::new();
    let mut i: usize = 0;
    while i < panes.len()
        invariant
            i <= panes@.len(),
            all == shapes::views(panes@),
            shapes::views(out@) == panes_at(
                all.take(i as int),
                placements@,
                Some((key@, path@)),
            ),
        decreases panes@.len() - i,
    {
        assert(all.take(i + 1).drop_last() =~= all.take(i as int));
        assert(all.take(i + 1).last() == panes@[i as int]@);
        if is_at(&panes[i], placements, key, path) {
            let node = node_of_pane(&panes[i]);
            proof {
                shapes::lemma_views_push(out@, node);
            }
            out.push(node);
        }
        i = i + 1;
    }
    assert(all.take(i as int) =~= all);
    out
}

fn collect_loose(panes: &Vec<Pane>, placements: &OrderedMap<PanePlacement>) -> (out: Vec<PaneNode>)
    ensures
        shapes::views(out@) == panes_at(shapes::views(panes@), placements@, None),
{
    let ghost all = shapes::views(panes@);
    let mut out: Vec<PaneNode> = Vec::new();
    let mut i: usize = 0;
    while i < panes.len()
        invariant
            i <= panes@.len(),
            all == shapes::views(panes@),
            shapes::views(out@) == panes_at(all.take(i as int), placements@, None),
        decreases panes@.len() - i,
    {
        assert(all.take(i + 1).drop_last() =~= all.take(i as int));
        assert(all.take(i + 1).last() == panes@[i as int]@);
        if !placements.has(panes[i].pane_id.as_str()) {
            let node = node_of_pane(&panes[i]);
            proof {
                shapes::lemma_views_push(out@, node);
            }
            out.push(node);
        }
        i = i + 1;
    }
    assert(all.take(i as int) =~= all);
    out
}

// ---------------------------------------------------------------- refs

/// Whether a ref is a branch of this repository that is out in the checkout at `path`.
pub open spec fn is_out_at(found: GitRefView, path: Seq<char>) -> bool {
    &&& found.kind == RefKind::Local
    &&& found.worktree_path matches Some(at)
    &&& model::normal_path(at) == path
}

/// The branches that are out in the checkout at `path`.
pub open spec fn refs_out_at(refs: Seq<GitRefView>, path: Seq<char>) -> Seq<GitRefView>
    decreases refs.len(),
{
    if refs.len() == 0 {
        seq![]
    } else {
        let so_far = refs_out_at(refs.drop_last(), path);
        if is_out_at(refs.last(), path) {
            so_far.push(refs.last())
        } else {
            so_far
        }
    }
}

/// The branches that are out in the checkout at `path`.
pub fn refs_at<'a>(refs: &'a Vec<GitRef>, path: &str) -> (out: Vec<&'a GitRef>)
    ensures
        shapes::views(out@) == refs_out_at(shapes::views(refs@), path@),
{
    let ghost all = shapes::views(refs@);
    let mut out: Vec<&'a GitRef> = Vec::new();
    let mut i: usize = 0;
    while i < refs.len()
        invariant
            i <= refs@.len(),
            all == shapes::views(refs@),
            shapes::views(out@) == refs_out_at(all.take(i as int), path@),
        decreases refs@.len() - i,
    {
        assert(all.take(i + 1).drop_last() =~= all.take(i as int));
        assert(all.take(i + 1).last() == refs@[i as int]@);
        let found = &refs[i];
        let at = match &found.worktree_path {
            Some(at) => same(normalize_path(at.as_str()).as_str(), path),
            None => false,
        };
        if found.kind == RefKind::Local && at {
            proof {
                shapes::lemma_views_push(out@, found);
            }
            out.push(found);
        }
        i = i + 1;
    }
    assert(all.take(i as int) =~= all);
    out
}

/// How the branch in the checkout at `path` stands. Where git names more than one branch there,
/// or none, nothing is said.
pub open spec fn track_at(refs: Result<Seq<GitRefView>, Seq<char>>, path: Seq<char>) -> Option<
    Track,
> {
    match refs {
        Err(_) => None,
        Ok(list) => if refs_out_at(list, path).len() == 1 {
            refs_out_at(list, path)[0].track
        } else {
            None
        },
    }
}

fn read_track_at(refs: &Result<Vec<GitRef>, String>, path: &str) -> (track: Option<Track>)
    ensures
        track == track_at(refs_view(*refs), path@),
{
    match refs {
        Err(_) => None,
        Ok(list) => {
            let out = refs_at(list, path);
            assert(shapes::views(out@).len() == out@.len());
            if out.len() == 1 {
                assert(shapes::views(out@)[0] == out@[0]@);
                out[0].track
            } else {
                None
            }
        },
    }
}

// ---------------------------------------------------------------- checkouts

/// A checkout that herdr lists, with the panes in it.
pub open spec fn listed_node(
    worktree: WorktreeView,
    panes: Seq<PaneView>,
    places: Places,
    repo: RepoInputView,
) -> WorktreeNodeView {
    let path = model::normal_path(worktree.path);
    WorktreeNodeView {
        branch: match worktree.branch {
            Some(name) => BranchView::Out(name),
            None => BranchView::NothingOut,
        },
        checkout_path: path,
        is_primary: !worktree.is_linked_worktree,
        open_workspace_id: worktree.open_workspace_id,
        track: track_at(repo.refs, path),
        panes: panes_at(panes, places, Some((repo.repo_key, path))),
    }
}

/// A checkout that only its panes speak for.
pub open spec fn unlisted_node(
    path: Seq<char>,
    panes: Seq<PaneView>,
    places: Places,
    repo: RepoInputView,
) -> WorktreeNodeView {
    WorktreeNodeView {
        branch: BranchView::NotSaid,
        checkout_path: path,
        is_primary: false,
        open_workspace_id: None,
        track: track_at(repo.refs, path),
        panes: panes_at(panes, places, Some((repo.repo_key, path))),
    }
}

/// The checkouts that herdr lists of a repository, without the bare one.
pub open spec fn listed_nodes(
    worktrees: Seq<WorktreeView>,
    panes: Seq<PaneView>,
    places: Places,
    repo: RepoInputView,
) -> Seq<WorktreeNodeView>
    decreases worktrees.len(),
{
    if worktrees.len() == 0 {
        seq![]
    } else {
        let so_far = listed_nodes(worktrees.drop_last(), panes, places, repo);
        if worktrees.last().is_bare {
            so_far
        } else {
            so_far.push(listed_node(worktrees.last(), panes, places, repo))
        }
    }
}

/// Whether one of the checkouts is at `path`.
pub open spec fn has_path(nodes: Seq<WorktreeNodeView>, path: Seq<char>) -> bool {
    exists|i: int| 0 <= i < nodes.len() && (#[trigger] nodes[i]).checkout_path == path
}

/// The checkouts `nodes`, and behind them one for every other checkout that a pane of the
/// repository is in, in the order of the session.
pub open spec fn with_unlisted(
    nodes: Seq<WorktreeNodeView>,
    seen: Seq<PaneView>,
    panes: Seq<PaneView>,
    places: Places,
    repo: RepoInputView,
) -> Seq<WorktreeNodeView>
    decreases seen.len(),
{
    if seen.len() == 0 {
        nodes
    } else {
        let so_far = with_unlisted(nodes, seen.drop_last(), panes, places, repo);
        match place_of(places, seen.last()) {
            Some((key, path)) => if key == repo.repo_key && !has_path(so_far, path) {
                so_far.push(unlisted_node(path, panes, places, repo))
            } else {
                so_far
            },
            None => so_far,
        }
    }
}

/// A repository with its checkouts and their panes.
pub open spec fn repo_node(repo: RepoInputView, panes: Seq<PaneView>, places: Places) -> RepoNodeView {
    RepoNodeView {
        repo_key: repo.repo_key,
        repo_root: repo.repo_root,
        display_name: repo.display_name,
        refs: match repo.refs {
            Ok(_) => RefsView::Read,
            Err(words) => RefsView::Unreadable(words),
        },
        worktrees: with_unlisted(
            listed_nodes(repo.worktrees, panes, places, repo),
            panes,
            panes,
            places,
            repo,
        ),
    }
}

fn knows_path(nodes: &Vec<WorktreeNode>, path: &str) -> (knows: bool)
    ensures
        knows == has_path(shapes::views(nodes@), path@),
{
    let mut i: usize = 0;
    while i < nodes.len()
        invariant
            i <= nodes@.len(),
            forall|j: int|
                0 <= j < i ==> (#[trigger] shapes::views(nodes@)[j]).checkout_path != path@,
        decreases nodes@.len() - i,
    {
        if same(nodes[i].checkout_path.as_str(), path) {
            assert(shapes::views(nodes@)[i as int].checkout_path == path@);
            return true;
        }
        i = i + 1;
    }
    false
}

fn build_repo(repo: &RepoInput, panes: &Vec<Pane>, placements: &OrderedMap<PanePlacement>) -> (node:
    RepoNode)
    ensures
        node@ == repo_node(repo@, shapes::views(panes@), placements@),
{
    let ghost all = shapes::views(panes@);
    let ghost ws = shapes::views(repo.worktrees@);
    let mut nodes: Vec<WorktreeNode> = Vec::new();
    let mut i: usize = 0;
    while i < repo.worktrees.len()
        invariant
            i <= repo.worktrees@.len(),
            all == shapes::views(panes@),
            ws == shapes::views(repo.worktrees@),
            shapes::views(nodes@) == listed_nodes(ws.take(i as int), all, placements@, repo@),
        decreases repo.worktrees@.len() - i,
    {
        assert(ws.take(i + 1).drop_last() =~= ws.take(i as int));
        assert(ws.take(i + 1).last() == repo.worktrees@[i as int]@);
        let worktree = &repo.worktrees[i];
        if !worktree.is_bare {
            let path = normalize_path(worktree.path.as_str());
            let branch = match &worktree.branch {
                Some(name) => Branch::Out(name.clone()),
                None => Branch::NothingOut,
            };
            let track = read_track_at(&repo.refs, path.as_str());
            let inside = collect_panes_at(panes, placements, repo.repo_key.as_str(), path.as_str());
            let node = WorktreeNode {
                branch,
                checkout_path: path,
                is_primary: !worktree.is_linked_worktree,
                open_workspace_id: copied(&worktree.open_workspace_id),
                track,
                panes: inside,
            };
            proof {
                assert(node@ =~= listed_node(worktree@, all, placements@, repo@));
                shapes::lemma_views_push(nodes@, node);
            }
            nodes.push(node);
        }
        i = i + 1;
    }
    assert(ws.take(i as int) =~= ws);
    let ghost first = shapes::views(nodes@);
    let mut k: usize = 0;
    while k < panes.len()
        invariant
            k <= panes@.len(),
            all == shapes::views(panes@),
            shapes::views(nodes@) == with_unlisted(
                first,
                all.take(k as int),
                all,
                placements@,
                repo@,
            ),
        decreases panes@.len() - k,
    {
        assert(all.take(k + 1).drop_last() =~= all.take(k as int));
        assert(all.take(k + 1).last() == panes@[k as int]@);
        match placements.get(panes[k].pane_id.as_str()) {
            Some(place) => {
                if same(place.repo_key.as_str(), repo.repo_key.as_str()) && !knows_path(
                    &nodes,
                    place.checkout_path.as_str(),
                ) {
                    let path = place.checkout_path.clone();
                    let track = read_track_at(&repo.refs, path.as_str());
                    let inside = collect_panes_at(
                        panes,
                        placements,
                        repo.repo_key.as_str(),
                        path.as_str(),
                    );
                    let node = WorktreeNode {
                        branch: Branch::NotSaid,
                        checkout_path: path,
                        is_primary: false,
                        open_workspace_id: None,
                        track,
                        panes: inside,
                    };
                    proof {
                        assert(node@ =~= unlisted_node(
                            place.checkout_path@,
                            all,
                            placements@,
                            repo@,
                        ));
                        shapes::lemma_views_push(nodes@, node);
                    }
                    nodes.push(node);
                }
            },
            None => {},
        }
        k = k + 1;
    }
    assert(all.take(k as int) =~= all);
    let refs = match &repo.refs {
        Ok(_) => Refs::Read,
        Err(words) => Refs::Unreadable(words.clone()),
    };
    RepoNode {
        repo_key: repo.repo_key.clone(),
        repo_root: repo.repo_root.clone(),
        display_name: repo.display_name.clone(),
        refs,
        worktrees: nodes,
    }
}

/// The repositories of the tree.
pub open spec fn repo_nodes(repos: Seq<RepoInputView>, panes: Seq<PaneView>, places: Places) -> Seq<
    RepoNodeView,
> {
    Seq::new(repos.len(), |i: int| repo_node(repos[i], panes, places))
}

/// Groups the panes of a session under the repositories that were read. The panes that have no
/// place are kept apart; no trouble is filed yet.
pub fn build(
    snapshot: &Snapshot,
    repos: &Vec<RepoInput>,
    placements: &OrderedMap<PanePlacement>,
) -> (tree: Tree)
    ensures
        shapes::views(tree.repos@) == repo_nodes(
            shapes::views(repos@),
            snapshot@.panes,
            placements@,
        ),
        shapes::views(tree.ungrouped@) == panes_at(snapshot@.panes, placements@, None),
        tree.trouble.unlisted@.len() == 0,
        tree.trouble.unplaced@ == Map::<Seq<char>, String>::empty(),
{
    let ghost nodes = repo_nodes(shapes::views(repos@), snapshot@.panes, placements@);
    let mut out: Vec<RepoNode> = Vec::new();
    let mut i: usize = 0;
    while i < repos.len()
        invariant
            i <= repos@.len(),
            nodes == repo_nodes(shapes::views(repos@), snapshot@.panes, placements@),
            shapes::views(out@) == nodes.take(i as int),
        decreases repos@.len() - i,
    {
        let node = build_repo(&repos[i], &snapshot.panes, placements);
        proof {
            shapes::lemma_views_push(out@, node);
            assert(nodes.take(i + 1) =~= nodes.take(i as int).push(node@));
        }
        out.push(node);
        i = i + 1;
    }
    assert(nodes.take(i as int) =~= nodes);
    Tree {
        repos: out,
        ungrouped: collect_loose(&snapshot.panes, placements),
        trouble: Trouble::none(),
    }
}

// ---------------------------------------------------------------- laws

proof fn lemma_panes_at_holds(
    panes: Seq<PaneView>,
    places: Places,
    place: Option<(Seq<char>, Seq<char>)>,
    i: int,
)
    requires
        0 <= i < panes.len(),
        place_of(places, panes[i]) == place,
    ensures
        panes_at(panes, places, place).contains(pane_node(panes[i])),
    decreases panes.len(),
{
    let so_far = panes_at(panes.drop_last(), places, place);
    let all = panes_at(panes, places, place);
    if i == panes.len() - 1 {
        assert(all[so_far.len() as int] == pane_node(panes[i]));
    } else {
        lemma_panes_at_holds(panes.drop_last(), places, place, i);
        let k = choose|k: int| 0 <= k < so_far.len() && so_far[k] == pane_node(panes[i]);
        assert(all[k] == pane_node(panes[i]));
    }
}

/// Every checkout of the list holds the panes that are placed in it.
pub open spec fn hold_their_panes(
    nodes: Seq<WorktreeNodeView>,
    panes: Seq<PaneView>,
    places: Places,
    key: Seq<char>,
) -> bool {
    forall|i: int|
        0 <= i < nodes.len() ==> (#[trigger] nodes[i]).panes == panes_at(
            panes,
            places,
            Some((key, nodes[i].checkout_path)),
        )
}

proof fn lemma_listed_nodes_hold(
    worktrees: Seq<WorktreeView>,
    panes: Seq<PaneView>,
    places: Places,
    repo: RepoInputView,
)
    ensures
        hold_their_panes(listed_nodes(worktrees, panes, places, repo), panes, places, repo.repo_key),
    decreases worktrees.len(),
{
    if worktrees.len() > 0 {
        lemma_listed_nodes_hold(worktrees.drop_last(), panes, places, repo);
    }
}

proof fn lemma_with_unlisted(
    nodes: Seq<WorktreeNodeView>,
    seen: Seq<PaneView>,
    panes: Seq<PaneView>,
    places: Places,
    repo: RepoInputView,
)
    requires
        hold_their_panes(nodes, panes, places, repo.repo_key),
    ensures
        hold_their_panes(
            with_unlisted(nodes, seen, panes, places, repo),
            panes,
            places,
            repo.repo_key,
        ),
        forall|i: int, path: Seq<char>|
            0 <= i < seen.len() && #[trigger] place_of(places, seen[i]) == Some(
                (repo.repo_key, path),
            ) ==> #[trigger] has_path(with_unlisted(nodes, seen, panes, places, repo), path),
    decreases seen.len(),
{
    if seen.len() > 0 {
        let so_far = with_unlisted(nodes, seen.drop_last(), panes, places, repo);
        let all = with_unlisted(nodes, seen, panes, places, repo);
        lemma_with_unlisted(nodes, seen.drop_last(), panes, places, repo);
        assert forall|i: int, path: Seq<char>|
            0 <= i < seen.len() && #[trigger] place_of(places, seen[i]) == Some(
                (repo.repo_key, path),
            ) implies #[trigger] has_path(all, path) by {
            if i < seen.len() - 1 {
                assert(seen.drop_last()[i] == seen[i]);
                assert(has_path(so_far, path));
            }
            if has_path(so_far, path) {
                let k = choose|k: int|
                    0 <= k < so_far.len() && (#[trigger] so_far[k]).checkout_path == path;
                assert(all[k].checkout_path == path);
            } else {
                assert(i == seen.len() - 1);
                assert(all[so_far.len() as int].checkout_path == path);
            }
        }
    }
}

/// Whether a place is in the repository under `key`.
pub open spec fn is_in_repo(place: Option<(Seq<char>, Seq<char>)>, key: Seq<char>) -> bool {
    match place {
        Some((at, _)) => at == key,
        None => false,
    }
}

/// Every pane of the session is shown: with the panes in no repository where it has no place, and
/// in its own checkout where its repository was read.
pub proof fn law_every_pane_is_shown(
    repos: Seq<RepoInputView>,
    panes: Seq<PaneView>,
    places: Places,
    i: int,
)
    requires
        0 <= i < panes.len(),
    ensures
        place_of(places, panes[i]) is None ==> panes_at(panes, places, None).contains(
            pane_node(panes[i]),
        ),
        forall|r: int|
            0 <= r < repos.len() && is_in_repo(
                place_of(places, panes[i]),
                (#[trigger] repos[r]).repo_key,
            ) ==> exists|w: int|
                0 <= w < repo_nodes(repos, panes, places)[r].worktrees.len() && (
                #[trigger] repo_nodes(repos, panes, places)[r].worktrees[w]).panes.contains(
                    pane_node(panes[i]),
                ),
{
    let place = place_of(places, panes[i]);
    lemma_panes_at_holds(panes, places, place, i);
    assert forall|r: int|
        0 <= r < repos.len() && is_in_repo(place, (#[trigger] repos[r]).repo_key) implies exists|w: int|
        0 <= w < repo_nodes(repos, panes, places)[r].worktrees.len() && (
        #[trigger] repo_nodes(repos, panes, places)[r].worktrees[w]).panes.contains(
            pane_node(panes[i]),
        ) by {
        let repo = repos[r];
        let (_, path) = place->0;
        let listed = listed_nodes(repo.worktrees, panes, places, repo);
        let nodes = repo_nodes(repos, panes, places)[r].worktrees;
        assert(nodes == with_unlisted(listed, panes, panes, places, repo));
        lemma_listed_nodes_hold(repo.worktrees, panes, places, repo);
        lemma_with_unlisted(listed, panes, panes, places, repo);
        assert(place == Some((repo.repo_key, path)));
        assert(has_path(nodes, path));
        let w = choose|w: int| 0 <= w < nodes.len() && (#[trigger] nodes[w]).checkout_path == path;
        assert(nodes[w].panes.contains(pane_node(panes[i])));
    }
}

/// No checkout shows a pane that is placed elsewhere.
pub proof fn law_no_pane_is_shown_elsewhere(
    repo: RepoInputView,
    panes: Seq<PaneView>,
    places: Places,
    w: int,
)
    requires
        0 <= w < repo_node(repo, panes, places).worktrees.len(),
    ensures
        repo_node(repo, panes, places).worktrees[w].panes == panes_at(
            panes,
            places,
            Some((repo.repo_key, repo_node(repo, panes, places).worktrees[w].checkout_path)),
        ),
{
    lemma_listed_nodes_hold(repo.worktrees, panes, places, repo);
    lemma_with_unlisted(
        listed_nodes(repo.worktrees, panes, places, repo),
        panes,
        panes,
        places,
        repo,
    );
}

/// The panes at a place are those of the session that are placed there, in its order: those of one
/// part of the session and then those of the next.
pub proof fn law_panes_are_shown_in_their_order(
    one: Seq<PaneView>,
    other: Seq<PaneView>,
    pane: PaneView,
    places: Places,
    place: Option<(Seq<char>, Seq<char>)>,
)
    ensures
        panes_at(one + other, places, place) == panes_at(one, places, place) + panes_at(
            other,
            places,
            place,
        ),
        panes_at(seq![pane], places, place) == if place_of(places, pane) == place {
            seq![pane_node(pane)]
        } else {
            seq![]
        },
        place_of(places, pane) == if places.contains_key(pane.pane_id) {
            Some((places[pane.pane_id].repo_key@, places[pane.pane_id].checkout_path@))
        } else {
            None
        },
    decreases other.len(),
{
    assert(seq![pane].drop_last() =~= seq![]);
    assert(panes_at(seq![pane].drop_last(), places, place) =~= seq![]);
    if other.len() == 0 {
        assert(one + other =~= one);
        assert(panes_at(one, places, place) + panes_at(other, places, place) =~= panes_at(
            one,
            places,
            place,
        ));
    } else {
        law_panes_are_shown_in_their_order(one, other.drop_last(), pane, places, place);
        assert((one + other).drop_last() =~= one + other.drop_last());
        assert((one + other).last() == other.last());
        assert(panes_at(one + other, places, place) =~= panes_at(one, places, place) + panes_at(
            other,
            places,
            place,
        ));
    }
}

/// A pane is shown as herdr knows it, and is called by the first of its label, its agent and its
/// titles that says anything.
pub proof fn law_pane_is_shown_as_herdr_knows_it(pane: PaneView)
    ensures
        pane_node(pane).pane_id == pane.pane_id,
        pane_node(pane).workspace_id == pane.workspace_id,
        pane_node(pane).tab_id == pane.tab_id,
        pane_node(pane).agent_status == pane.agent_status,
        pane_node(pane).focused == pane.focused,
        pane.label matches Some(label) && label.len() > 0 ==> pane_node(pane).display_name
            == pane.label,
        (pane.label matches Some(label) ==> label.len() == 0) ==> (pane.agent matches Some(agent)
            && agent.len() > 0 ==> pane_node(pane).display_name == pane.agent),
        pane_node(pane).display_name matches Some(name) ==> name.len() > 0,
        pane.label is None && pane.agent is None && pane.terminal_title_stripped is None
            && pane.title is None ==> pane_node(pane).display_name is None,
{
}

/// How a checkout stands is how the one branch stands that git says is out there. Where git names
/// another one there too, or none, or could not be read, nothing is said.
pub proof fn law_checkout_stands_as_its_branch(refs: Seq<GitRefView>, path: Seq<char>, i: int, words: Seq<char>)
    requires
        0 <= i < refs.len(),
        refs[i].kind == RefKind::Local,
        refs[i].worktree_path matches Some(at) && model::normal_path(at) == path,
    ensures
        (forall|j: int|
            0 <= j < refs.len() && j != i ==> (#[trigger] refs[j]).kind != RefKind::Local || !(
            refs[j].worktree_path matches Some(at) && model::normal_path(at) == path))
            ==> track_at(Ok(refs), path) == refs[i].track,
        (exists|j: int|
            0 <= j < refs.len() && j != i && (#[trigger] refs[j]).kind == RefKind::Local && (
            refs[j].worktree_path matches Some(at) && model::normal_path(at) == path)) ==> track_at(
            Ok(refs),
            path,
        ) is None,
        track_at(Err(words), path) is None,
{
    lemma_refs_out_hold(refs, path);
    let out = refs_out_at(refs, path);
    if forall|j: int|
        0 <= j < refs.len() && j != i ==> (#[trigger] refs[j]).kind != RefKind::Local || !(
        refs[j].worktree_path matches Some(at) && model::normal_path(at) == path) {
        lemma_one_ref_out(refs, path, i);
    }
    if exists|j: int|
        0 <= j < refs.len() && j != i && (#[trigger] refs[j]).kind == RefKind::Local && (
        refs[j].worktree_path matches Some(at) && model::normal_path(at) == path) {
        let j = choose|j: int|
            0 <= j < refs.len() && j != i && (#[trigger] refs[j]).kind == RefKind::Local && (
            refs[j].worktree_path matches Some(at) && model::normal_path(at) == path);
        if i < j {
            lemma_two_refs_out(refs, path, i, j);
        } else {
            lemma_two_refs_out(refs, path, j, i);
        }
    }
}

/// Where no branch of the repository is out in a checkout, nothing is said of how it stands.
pub proof fn law_checkout_without_branch_stands_to_nothing(refs: Seq<GitRefView>, path: Seq<char>)
    requires
        forall|j: int|
            0 <= j < refs.len() ==> (#[trigger] refs[j]).kind != RefKind::Local || !(
            refs[j].worktree_path matches Some(at) && model::normal_path(at) == path),
    ensures
        track_at(Ok(refs), path) is None,
{
    lemma_no_ref_out(refs, path);
}

proof fn lemma_no_ref_out(refs: Seq<GitRefView>, path: Seq<char>)
    requires
        forall|j: int|
            0 <= j < refs.len() ==> (#[trigger] refs[j]).kind != RefKind::Local || !(
            refs[j].worktree_path matches Some(at) && model::normal_path(at) == path),
    ensures
        refs_out_at(refs, path).len() == 0,
    decreases refs.len(),
{
    if refs.len() > 0 {
        assert(!is_out_at(refs[refs.len() - 1], path));
        lemma_no_ref_out(refs.drop_last(), path);
    }
}

proof fn lemma_refs_out_hold(refs: Seq<GitRefView>, path: Seq<char>)
    ensures
        refs_out_at(refs, path).len() <= refs.len(),
    decreases refs.len(),
{
    if refs.len() > 0 {
        lemma_refs_out_hold(refs.drop_last(), path);
    }
}

proof fn lemma_one_ref_out(refs: Seq<GitRefView>, path: Seq<char>, i: int)
    requires
        0 <= i < refs.len(),
        is_out_at(refs[i], path),
        forall|j: int|
            0 <= j < refs.len() && j != i ==> (#[trigger] refs[j]).kind != RefKind::Local || !(
            refs[j].worktree_path matches Some(at) && model::normal_path(at) == path),
    ensures
        refs_out_at(refs, path) == seq![refs[i]],
    decreases refs.len(),
{
    let front = refs.drop_last();
    if i == refs.len() - 1 {
        assert forall|j: int| 0 <= j < front.len() implies (#[trigger] front[j]).kind
            != RefKind::Local || !(front[j].worktree_path matches Some(at) && model::normal_path(at)
            == path) by {
            assert(front[j] == refs[j]);
        }
        lemma_no_ref_out(front, path);
        assert(refs_out_at(refs, path) =~= seq![refs[i]]);
    } else {
        assert(front[i] == refs[i]);
        assert forall|j: int| 0 <= j < front.len() && j != i implies (#[trigger] front[j]).kind
            != RefKind::Local || !(front[j].worktree_path matches Some(at) && model::normal_path(at)
            == path) by {
            assert(front[j] == refs[j]);
        }
        lemma_one_ref_out(front, path, i);
        assert(!is_out_at(refs[refs.len() - 1], path));
    }
}

proof fn lemma_two_refs_out(refs: Seq<GitRefView>, path: Seq<char>, i: int, j: int)
    requires
        0 <= i < j < refs.len(),
        is_out_at(refs[i], path),
        is_out_at(refs[j], path),
    ensures
        refs_out_at(refs, path).len() >= 2,
    decreases refs.len(),
{
    let front = refs.drop_last();
    if j == refs.len() - 1 {
        assert(front[i] == refs[i]);
        lemma_a_ref_out(front, path, i);
    } else {
        assert(front[i] == refs[i] && front[j] == refs[j]);
        lemma_two_refs_out(front, path, i, j);
    }
}

proof fn lemma_a_ref_out(refs: Seq<GitRefView>, path: Seq<char>, i: int)
    requires
        0 <= i < refs.len(),
        is_out_at(refs[i], path),
    ensures
        refs_out_at(refs, path).len() >= 1,
    decreases refs.len(),
{
    if i < refs.len() - 1 {
        assert(refs.drop_last()[i] == refs[i]);
        lemma_a_ref_out(refs.drop_last(), path, i);
    }
}

/// The checkouts that herdr lists of a repository are shown one by one in its order, but for a bare
/// one: each at its path in its one spelling, with the branch that herdr says is out there.
pub proof fn law_listed_checkouts_are_shown(
    one: Seq<WorktreeView>,
    other: Seq<WorktreeView>,
    worktree: WorktreeView,
    panes: Seq<PaneView>,
    places: Places,
    repo: RepoInputView,
)
    ensures
        listed_nodes(one + other, panes, places, repo) == listed_nodes(one, panes, places, repo)
            + listed_nodes(other, panes, places, repo),
        worktree.is_bare ==> listed_nodes(seq![worktree], panes, places, repo).len() == 0,
        !worktree.is_bare ==> ({
            let shown = listed_nodes(seq![worktree], panes, places, repo);
            &&& shown.len() == 1
            &&& shown[0].checkout_path == model::normal_path(worktree.path)
            &&& worktree.branch matches Some(name) ==> shown[0].branch == BranchView::Out(name)
            &&& worktree.branch is None ==> shown[0].branch is NothingOut
            &&& shown[0].is_primary == !worktree.is_linked_worktree
            &&& shown[0].open_workspace_id == worktree.open_workspace_id
            &&& shown[0].track == track_at(repo.refs, model::normal_path(worktree.path))
            &&& shown[0].panes == panes_at(
                panes,
                places,
                Some((repo.repo_key, model::normal_path(worktree.path))),
            )
        }),
    decreases other.len(),
{
    assert(seq![worktree].drop_last() =~= seq![]);
    assert(listed_nodes(seq![worktree].drop_last(), panes, places, repo) =~= seq![]);
    if other.len() == 0 {
        assert(one + other =~= one);
        assert(listed_nodes(one, panes, places, repo) + listed_nodes(other, panes, places, repo)
            =~= listed_nodes(one, panes, places, repo));
    } else {
        law_listed_checkouts_are_shown(one, other.drop_last(), worktree, panes, places, repo);
        assert((one + other).drop_last() =~= one + other.drop_last());
        assert((one + other).last() == other.last());
        assert(listed_nodes(one + other, panes, places, repo) =~= listed_nodes(
            one,
            panes,
            places,
            repo,
        ) + listed_nodes(other, panes, places, repo));
    }
}

/// A repository is shown under its own key, root and name, with its listed checkouts first; behind
/// them stands one for each other checkout that a pane of it is in, of which nobody said what is
/// out there. A repository whose refs could not be read says why.
pub proof fn law_repository_is_shown_with_all_its_checkouts(
    repo: RepoInputView,
    panes: Seq<PaneView>,
    places: Places,
    w: int,
)
    requires
        0 <= w < repo_node(repo, panes, places).worktrees.len(),
    ensures
        ({
            let node = repo_node(repo, panes, places);
            let listed = listed_nodes(repo.worktrees, panes, places, repo);
            &&& node.repo_key == repo.repo_key
            &&& node.repo_root == repo.repo_root
            &&& node.display_name == repo.display_name
            &&& node.refs is Read <==> repo.refs is Ok
            &&& repo.refs matches Err(words) ==> node.refs == RefsView::Unreadable(words)
            &&& listed.is_prefix_of(node.worktrees)
            &&& w >= listed.len() ==> node.worktrees[w].branch is NotSaid
                && !node.worktrees[w].is_primary && exists|p: int|
                0 <= p < panes.len() && place_of(places, #[trigger] panes[p]) == Some(
                    (repo.repo_key, node.worktrees[w].checkout_path),
                )
        }),
{
    let listed = listed_nodes(repo.worktrees, panes, places, repo);
    lemma_unlisted_behind(listed, panes, panes, places, repo);
}

proof fn lemma_unlisted_behind(
    nodes: Seq<WorktreeNodeView>,
    seen: Seq<PaneView>,
    panes: Seq<PaneView>,
    places: Places,
    repo: RepoInputView,
)
    ensures
        nodes.is_prefix_of(with_unlisted(nodes, seen, panes, places, repo)),
        forall|w: int|
            nodes.len() <= w < with_unlisted(nodes, seen, panes, places, repo).len() ==> (
            #[trigger] with_unlisted(nodes, seen, panes, places, repo)[w]).branch is NotSaid
                && !with_unlisted(nodes, seen, panes, places, repo)[w].is_primary && exists|p: int|
                0 <= p < seen.len() && place_of(places, #[trigger] seen[p]) == Some(
                    (
                        repo.repo_key,
                        with_unlisted(nodes, seen, panes, places, repo)[w].checkout_path,
                    ),
                ),
    decreases seen.len(),
{
    let all = with_unlisted(nodes, seen, panes, places, repo);
    if seen.len() == 0 {
        assert(nodes.subrange(0, nodes.len() as int) =~= nodes);
    } else {
        let front = seen.drop_last();
        let so_far = with_unlisted(nodes, front, panes, places, repo);
        lemma_unlisted_behind(nodes, front, panes, places, repo);
        assert(so_far.subrange(0, nodes.len() as int) == nodes);
        assert(all.subrange(0, nodes.len() as int) =~= nodes);
        assert forall|w: int| nodes.len() <= w < all.len() implies (#[trigger] all[w]).branch is NotSaid
            && !all[w].is_primary && exists|p: int|
            0 <= p < seen.len() && place_of(places, #[trigger] seen[p]) == Some(
                (repo.repo_key, all[w].checkout_path),
            ) by {
            if w < so_far.len() {
                assert(all[w] == so_far[w]);
                let p = choose|p: int|
                    0 <= p < front.len() && place_of(places, #[trigger] front[p]) == Some(
                        (repo.repo_key, so_far[w].checkout_path),
                    );
                assert(seen[p] == front[p]);
            } else {
                assert(place_of(places, seen[seen.len() - 1]) == Some(
                    (repo.repo_key, all[w].checkout_path),
                ));
            }
        }
    }
}

/// A pane that neither a label nor an agent names is called by its title: by the one that herdr
/// stripped, and where that says nothing by the one as it was set.
pub proof fn law_pane_without_a_name_has_its_title(pane: PaneView)
    requires
        pane.label is None || pane.label->Some_0.len() == 0,
        pane.agent is None || pane.agent->Some_0.len() == 0,
    ensures
        pane.terminal_title_stripped is Some && pane.terminal_title_stripped->Some_0.len() > 0
            ==> pane_node(pane).display_name == pane.terminal_title_stripped,
        (pane.terminal_title_stripped is None || pane.terminal_title_stripped->Some_0.len() == 0)
            && pane.title is Some && pane.title->Some_0.len() > 0 ==> pane_node(
            pane,
        ).display_name == pane.title,
        (pane.terminal_title_stripped is None || pane.terminal_title_stripped->Some_0.len() == 0)
            && (pane.title is None || pane.title->Some_0.len() == 0) ==> pane_node(
            pane,
        ).display_name is None,
{
}

/// A checkout that only its panes speak for is open in no workspace that is known and stands as git
/// says, and no checkout that is shown already gets another beside it. The panes are looked at one
/// after the other.
pub proof fn law_checkout_of_a_pane_is_shown_once(
    nodes: Seq<WorktreeNodeView>,
    first: Seq<PaneView>,
    pane: PaneView,
    panes: Seq<PaneView>,
    places: Places,
    repo: RepoInputView,
)
    ensures
        ({
            let so_far = with_unlisted(nodes, first, panes, places, repo);
            let after = with_unlisted(nodes, first.push(pane), panes, places, repo);
            match place_of(places, pane) {
                Some((key, path)) => if key == repo.repo_key && forall|i: int|
                    0 <= i < so_far.len() ==> (#[trigger] so_far[i]).checkout_path != path {
                    after == so_far.push(
                        WorktreeNodeView {
                            branch: BranchView::NotSaid,
                            checkout_path: path,
                            is_primary: false,
                            open_workspace_id: None,
                            track: track_at(repo.refs, path),
                            panes: panes_at(panes, places, Some((repo.repo_key, path))),
                        },
                    )
                } else {
                    after == so_far
                },
                None => after == so_far,
            }
        }),
        with_unlisted(nodes, seq![], panes, places, repo) == nodes,
{
    let so_far = with_unlisted(nodes, first, panes, places, repo);
    assert(first.push(pane).drop_last() =~= first);
    assert(first.push(pane).last() == pane);
    match place_of(places, pane) {
        Some((key, path)) => {
            if has_path(so_far, path) {
                let i = choose|i: int|
                    0 <= i < so_far.len() && (#[trigger] so_far[i]).checkout_path == path;
                assert(so_far[i].checkout_path == path);
            }
        },
        None => {},
    }
}

/// The branches that are out in a checkout are looked for among the refs one by one and kept in
/// their order: branches of the repository itself, whose checkout is that one in its one spelling.
pub proof fn law_refs_out_are_kept_in_order(
    first: Seq<GitRefView>,
    second: Seq<GitRefView>,
    found: GitRefView,
    path: Seq<char>,
)
    ensures
        refs_out_at(first + second, path) == refs_out_at(first, path) + refs_out_at(second, path),
        refs_out_at(seq![found], path) == if found.kind == RefKind::Local
            && found.worktree_path is Some && model::normal_path(found.worktree_path->Some_0)
            == path {
            seq![found]
        } else {
            seq![]
        },
{
    lemma_refs_out_joined(first, second, path);
    assert(seq![found].drop_last() =~= seq![]);
    assert(refs_out_at(seq![found].drop_last(), path) == Seq::<GitRefView>::empty());
    assert(seq![found].last() == found);
}

proof fn lemma_refs_out_joined(first: Seq<GitRefView>, second: Seq<GitRefView>, path: Seq<char>)
    ensures
        refs_out_at(first + second, path) == refs_out_at(first, path) + refs_out_at(second, path),
    decreases second.len(),
{
    let both = first + second;
    if second.len() == 0 {
        assert(both =~= first);
        assert(refs_out_at(first, path) + refs_out_at(second, path) =~= refs_out_at(first, path));
    } else {
        lemma_refs_out_joined(first, second.drop_last(), path);
        assert(both.drop_last() =~= first + second.drop_last());
        assert(both.last() == second.last());
        assert(refs_out_at(both, path) =~= refs_out_at(first, path) + refs_out_at(second, path));
    }
}

} // verus!
