//! Reading a session: where its panes are, which repositories that makes, and the tree of them.

use vstd::prelude::*;

use crate::model;
use crate::model::{normalize_path, Tree, Unlisted, UnlistedView};
use crate::ordered::OrderedMap;
use crate::port::{
    GitRef, GitRefView, Pane, PaneView, RefWalk, RepoIdentity, Slug, Snapshot, SnapshotView,
    Workspace, WorkspaceView, WorktreeList, WorktreeListView,
};
use crate::shapes;
use crate::shapes::reversed;
use crate::text;
use crate::text::{after_prefix, chars_of, folded, insert_ordered, same};
use crate::tree;
use crate::tree::{build, PanePlacement, RepoInput, RepoInputView};

verus! {

/// What came back from a question that was put on a thread of its own.
pub enum Reply<T> {
    /// An answer, or the words for why there is none.
    Answered(Result<T, String>),
    /// The thread did not finish.
    Lost,
}

// ---------------------------------------------------------------- paths

/// Whether a path is a directory or lies below it. A sibling that shares its first letters does
/// not.
pub open spec fn inside(path: Seq<char>, root: Seq<char>) -> bool {
    let p = model::normal_path(path);
    let r = model::normal_path(root);
    p == r || (r.is_prefix_of(p) && p.len() > r.len() && p[r.len() as int] == '/')
}

/// Whether a path is a directory or lies below it.
pub fn is_inside(path: &str, root: &str) -> (is: bool)
    ensures
        is == inside(path@, root@),
{
    let p = normalize_path(path);
    let r = normalize_path(root);
    if same(p.as_str(), r.as_str()) {
        return true;
    }
    let cs = chars_of(p.as_str());
    match after_prefix(cs.as_slice(), r.as_str()) {
        Some(rest) => {
            assert(rest@ == p@.skip(r@.len() as int));
            rest.len() > 0 && rest[0] == '/'
        },
        None => false,
    }
}

/// A directory is inside itself, however its path ends.
pub proof fn law_directory_is_inside_itself(path: Seq<char>)
    ensures
        inside(path, path),
        inside(path, model::normal_path(path)),
        inside(model::normal_path(path), path),
{
    model::law_normal_path_is_normal(path);
}

// ---------------------------------------------------------------- places

/// A place with both of its paths in their one spelling.
pub open spec fn normal_place(repo_key: Seq<char>, checkout_path: Seq<char>) -> (
    Seq<char>,
    Seq<char>,
) {
    (model::normal_path(repo_key), model::normal_path(checkout_path))
}

/// The checkout that a workspace is in: the last one that is said of it.
pub open spec fn workspace_place(workspaces: Seq<WorkspaceView>, id: Seq<char>) -> Option<
    (Seq<char>, Seq<char>),
>
    decreases workspaces.len(),
{
    if workspaces.len() == 0 {
        None
    } else {
        let last = workspaces.last();
        match last.worktree {
            Some(worktree) => if last.workspace_id == id {
                Some(normal_place(worktree.repo_key, worktree.checkout_path))
            } else {
                workspace_place(workspaces.drop_last(), id)
            },
            None => workspace_place(workspaces.drop_last(), id),
        }
    }
}

fn place_of_workspace(workspaces: &Vec<Workspace>, id: &str) -> (place: Option<PanePlacement>)
    ensures
        shapes::opt(place) == workspace_place(shapes::views(workspaces@), id@),
{
    let ghost all = shapes::views(workspaces@);
    let mut i: usize = workspaces.len();
    assert(all.take(i as int) =~= all);
    while i > 0
        invariant
            i <= workspaces@.len(),
            all == shapes::views(workspaces@),
            workspace_place(all.take(i as int), id@) == workspace_place(all, id@),
        decreases i,
    {
        i = i - 1;
        assert(all.take(i + 1).drop_last() =~= all.take(i as int));
        assert(all.take(i + 1).last() == workspaces@[i as int]@);
        let workspace = &workspaces[i];
        match &workspace.worktree {
            Some(worktree) => {
                if same(workspace.workspace_id.as_str(), id) {
                    return Some(
                        PanePlacement {
                            repo_key: normalize_path(worktree.repo_key.as_str()),
                            checkout_path: normalize_path(worktree.checkout_path.as_str()),
                        },
                    );
                }
            },
            None => {},
        }
    }
    None
}

/// Where a pane is by what herdr says alone: in the checkout of its workspace, where its directory
/// is still inside that.
pub open spec fn known_place(workspaces: Seq<WorkspaceView>, pane: PaneView) -> Option<
    (Seq<char>, Seq<char>),
> {
    match (pane.effective_cwd(), workspace_place(workspaces, pane.workspace_id)) {
        (Some(cwd), Some((key, path))) => if inside(cwd, path) {
            Some((key, path))
        } else {
            None
        },
        _ => None,
    }
}

fn known_placement(workspaces: &Vec<Workspace>, pane: &Pane) -> (place: Option<PanePlacement>)
    ensures
        shapes::opt(place) == known_place(shapes::views(workspaces@), pane@),
{
    let cwd = match pane.effective_cwd() {
        Some(cwd) => cwd,
        None => {
            return None;
        },
    };
    match place_of_workspace(workspaces, pane.workspace_id.as_str()) {
        Some(place) => if is_inside(cwd, place.checkout_path.as_str()) {
            Some(place)
        } else {
            None
        },
        None => None,
    }
}

/// Whether git has to be asked about a directory: a pane is in it that herdr does not place.
pub open spec fn asks_about(
    workspaces: Seq<WorkspaceView>,
    panes: Seq<PaneView>,
    cwd: Seq<char>,
) -> bool {
    exists|i: int|
        0 <= i < panes.len() && #[trigger] panes[i].effective_cwd() == Some(cwd) && known_place(
            workspaces,
            panes[i],
        ) is None
}

/// The directories that git has to be asked about, each once.
pub fn unresolved(snapshot: &Snapshot) -> (cwds: Vec<String>)
    ensures
        text::ascending(text::texts(cwds@)),
        forall|cwd: Seq<char>| #[trigger]
            text::texts(cwds@).contains(cwd) <==> asks_about(
                snapshot@.workspaces,
                snapshot@.panes,
                cwd,
            ),
{
    let ghost ws = snapshot@.workspaces;
    let ghost all = snapshot@.panes;
    let mut cwds: Vec<String> = Vec::new();
    let mut i: usize = 0;
    while i < snapshot.panes.len()
        invariant
            i <= snapshot.panes@.len(),
            ws == snapshot@.workspaces,
            all == snapshot@.panes,
            text::ascending(text::texts(cwds@)),
            forall|cwd: Seq<char>| #[trigger]
                text::texts(cwds@).contains(cwd) <==> asks_about(ws, all.take(i as int), cwd),
        decreases snapshot.panes@.len() - i,
    {
        let pane = &snapshot.panes[i];
        let ghost before = text::texts(cwds@);
        let ghost seen = all.take(i as int);
        let ghost now = all.take(i + 1);
        proof {
            assert(now =~= seen.push(pane@));
            assert forall|cwd: Seq<char>| #[trigger]
                before.contains(cwd) implies asks_about(ws, now, cwd) by {
                let k = choose|k: int|
                    0 <= k < seen.len() && #[trigger] seen[k].effective_cwd() == Some(cwd)
                        && known_place(ws, seen[k]) is None;
                assert(now[k] == seen[k]);
            }
        }
        match pane.effective_cwd() {
            Some(cwd) => {
                if known_placement(&snapshot.workspaces, pane).is_none() {
                    insert_ordered(&mut cwds, cwd.to_owned());
                    assert(now[i as int].effective_cwd() == Some(cwd@));
                    assert(asks_about(ws, now, cwd@));
                }
            },
            None => {},
        }
        proof {
            assert forall|cwd: Seq<char>|
                #[trigger] text::texts(cwds@).contains(cwd) <==> asks_about(ws, now, cwd) by {
                if asks_about(ws, now, cwd) {
                    let k = choose|k: int|
                        0 <= k < now.len() && #[trigger] now[k].effective_cwd() == Some(cwd)
                            && known_place(ws, now[k]) is None;
                    if k < i {
                        assert(seen[k] == now[k]);
                        assert(asks_about(ws, seen, cwd));
                        assert(before.contains(cwd));
                    }
                }
            }
        }
        i = i + 1;
    }
    assert(all.take(i as int) =~= all);
    cwds
}

/// Where git says that a directory is: at a place, in no repository, or the words for why it did
/// not say.
pub type Placed = Result<Option<PanePlacement>, String>;

/// What git's answer about a directory says.
pub open spec fn identified(reply: Reply<Option<RepoIdentity>>) -> Result<
    Option<(Seq<char>, Seq<char>)>,
    Seq<char>,
> {
    match reply {
        Reply::Lost => Err("the thread asking git did not finish"@),
        Reply::Answered(Err(error)) => Err(text::one_line(error@)),
        Reply::Answered(Ok(None)) => Ok(None),
        Reply::Answered(Ok(Some(identity))) => Ok(
            Some(normal_place(identity.repo_key@, identity.checkout_path@)),
        ),
    }
}

/// What git's answer about a directory says.
pub fn identify_one(reply: Reply<Option<RepoIdentity>>) -> (placed: Placed)
    ensures
        shapes::outcome_opt(placed) == identified(reply),
{
    match reply {
        Reply::Lost => Err("the thread asking git did not finish".to_owned()),
        Reply::Answered(Err(error)) => Err(folded(error.as_str())),
        Reply::Answered(Ok(None)) => Ok(None),
        Reply::Answered(Ok(Some(identity))) => Ok(
            Some(
                PanePlacement {
                    repo_key: normalize_path(identity.repo_key.as_str()),
                    checkout_path: normalize_path(identity.checkout_path.as_str()),
                },
            ),
        ),
    }
}

/// What git said of each directory that it was asked about.
pub type Answers = Map<Seq<char>, Placed>;

/// Where each pane is, and why the panes that git would not answer about have no place.
#[verifier::ext_equal]
pub struct PlacesView {
    pub placements: Map<Seq<char>, (Seq<char>, Seq<char>)>,
    pub unplaced: Map<Seq<char>, Seq<char>>,
}

/// The panes that herdr places by itself.
pub open spec fn known_places(workspaces: Seq<WorkspaceView>, panes: Seq<PaneView>) -> Map<
    Seq<char>,
    (Seq<char>, Seq<char>),
>
    decreases panes.len(),
{
    if panes.len() == 0 {
        Map::empty()
    } else {
        let so_far = known_places(workspaces, panes.drop_last());
        match known_place(workspaces, panes.last()) {
            Some(place) => so_far.insert(panes.last().pane_id, place),
            None => so_far,
        }
    }
}

/// The places `known`, and what git said of every pane among `panes` that is not placed yet.
pub open spec fn asked_places(
    known: Map<Seq<char>, (Seq<char>, Seq<char>)>,
    panes: Seq<PaneView>,
    answers: Answers,
) -> PlacesView
    decreases panes.len(),
{
    if panes.len() == 0 {
        PlacesView { placements: known, unplaced: Map::empty() }
    } else {
        let so_far = asked_places(known, panes.drop_last(), answers);
        let pane = panes.last();
        match pane.effective_cwd() {
            Some(cwd) => if so_far.placements.contains_key(pane.pane_id) || !answers.contains_key(
                cwd,
            ) {
                so_far
            } else {
                match shapes::outcome_opt(answers[cwd]) {
                    Ok(Some(place)) => PlacesView {
                        placements: so_far.placements.insert(pane.pane_id, place),
                        unplaced: so_far.unplaced,
                    },
                    Ok(None) => so_far,
                    Err(words) => PlacesView {
                        placements: so_far.placements,
                        unplaced: so_far.unplaced.insert(pane.pane_id, words),
                    },
                }
            },
            None => so_far,
        }
    }
}

/// Where the panes of a session are: first by what herdr says, then by what git says.
pub open spec fn resolved_places(snapshot: SnapshotView, answers: Answers) -> PlacesView {
    asked_places(known_places(snapshot.workspaces, snapshot.panes), snapshot.panes, answers)
}

/// Where the panes of a session are, and what git said of those it would not answer about.
pub fn resolve_placements(snapshot: &Snapshot, answers: &OrderedMap<Placed>) -> (places: (
    OrderedMap<PanePlacement>,
    OrderedMap<String>,
))
    ensures
        shapes::map_views(places.0@) == resolved_places(snapshot@, answers@).placements,
        shapes::map_views(places.1@) == resolved_places(snapshot@, answers@).unplaced,
{
    let ghost ws = snapshot@.workspaces;
    let ghost all = snapshot@.panes;
    let mut placements: OrderedMap<PanePlacement> = OrderedMap::new();
    assert(shapes::map_views(placements@) =~= known_places(ws, all.take(0)));
    let mut i: usize = 0;
    while i < snapshot.panes.len()
        invariant
            i <= snapshot.panes@.len(),
            ws == snapshot@.workspaces,
            all == snapshot@.panes,
            shapes::map_views(placements@) == known_places(ws, all.take(i as int)),
        decreases snapshot.panes@.len() - i,
    {
        let pane = &snapshot.panes[i];
        assert(all.take(i + 1).drop_last() =~= all.take(i as int));
        assert(all.take(i + 1).last() == pane@);
        match known_placement(&snapshot.workspaces, pane) {
            Some(place) => {
                proof {
                    shapes::lemma_map_views_insert(placements@, pane.pane_id@, place);
                }
                placements.insert(pane.pane_id.clone(), place);
            },
            None => {},
        }
        i = i + 1;
    }
    assert(all.take(i as int) =~= all);
    let ghost known = shapes::map_views(placements@);
    let mut unplaced: OrderedMap<String> = OrderedMap::new();
    assert(shapes::map_views(unplaced@) =~= asked_places(known, all.take(0), answers@).unplaced);
    let mut k: usize = 0;
    while k < snapshot.panes.len()
        invariant
            k <= snapshot.panes@.len(),
            all == snapshot@.panes,
            shapes::map_views(placements@) == asked_places(known, all.take(k as int), answers@).placements,
            shapes::map_views(unplaced@) == asked_places(known, all.take(k as int), answers@).unplaced,
        decreases snapshot.panes@.len() - k,
    {
        let pane = &snapshot.panes[k];
        assert(all.take(k + 1).drop_last() =~= all.take(k as int));
        assert(all.take(k + 1).last() == pane@);
        if !placements.has(pane.pane_id.as_str()) {
            match pane.effective_cwd() {
                Some(cwd) => match answers.get(cwd) {
                    Some(Ok(Some(place))) => {
                        let place = PanePlacement {
                            repo_key: place.repo_key.clone(),
                            checkout_path: place.checkout_path.clone(),
                        };
                        proof {
                            shapes::lemma_map_views_insert(placements@, pane.pane_id@, place);
                        }
                        placements.insert(pane.pane_id.clone(), place);
                    },
                    Some(Ok(None)) => {},
                    Some(Err(words)) => {
                        let words = words.clone();
                        proof {
                            shapes::lemma_map_views_insert(unplaced@, pane.pane_id@, words);
                        }
                        unplaced.insert(pane.pane_id.clone(), words);
                    },
                    None => {},
                },
                None => {},
            }
        }
        k = k + 1;
    }
    assert(all.take(k as int) =~= all);
    (placements, unplaced)
}

// ---------------------------------------------------------------- repositories

/// A repository that panes are in: the checkouts to ask herdr about it through, and its panes.
#[derive(Debug, PartialEq, Eq)]
pub struct RepoProbes {
    pub repo_key: String,
    /// The checkouts that panes are in, each once, in ascending order.
    pub probes: Vec<String>,
    /// The panes and their checkouts, in ascending order of the panes.
    pub panes: Vec<(String, String)>,
}

/// The panes among `ids` that are in the repository under `key`, with their checkouts.
pub open spec fn panes_in(ids: Seq<Seq<char>>, places: tree::Places, key: Seq<char>) -> Seq<
    (Seq<char>, Seq<char>),
>
    decreases ids.len(),
{
    if ids.len() == 0 {
        seq![]
    } else {
        let so_far = panes_in(ids.drop_last(), places, key);
        let place = places[ids.last()];
        if place.repo_key@ == key {
            so_far.push((ids.last(), place.checkout_path@))
        } else {
            so_far
        }
    }
}

/// Whether a pane is in the repository under `key`.
pub open spec fn has_pane_in(places: tree::Places, key: Seq<char>) -> bool {
    exists|id: Seq<char>| #[trigger] places.contains_key(id) && places[id].repo_key@ == key
}

/// The probes of a repository are the checkouts that its panes are in, in ascending order.
pub open spec fn probes_are(probes: Seq<Seq<char>>, panes: Seq<(Seq<char>, Seq<char>)>) -> bool {
    &&& text::ascending(probes)
    &&& forall|path: Seq<char>| #[trigger]
        probes.contains(path) <==> exists|i: int|
            0 <= i < panes.len() && (#[trigger] panes[i]).1 == path
}

fn probes_of(key: &str, placements: &OrderedMap<PanePlacement>) -> (group: RepoProbes)
    ensures
        group.repo_key@ == key@,
        shapes::pairs(group.panes@) == panes_in(placements.keys(), placements@, key@),
        probes_are(text::texts(group.probes@), shapes::pairs(group.panes@)),
{
    let mut panes: Vec<(String, String)> = Vec::new();
    let mut probes: Vec<String> = Vec::new();
    let ghost ids = placements.keys();
    let mut i: usize = 0;
    while i < placements.len()
        invariant
            i <= ids.len(),
            ids == placements.keys(),
            shapes::pairs(panes@) == panes_in(ids.take(i as int), placements@, key@),
            probes_are(text::texts(probes@), shapes::pairs(panes@)),
        decreases ids.len() - i,
    {
        assert(ids.take(i + 1).drop_last() =~= ids.take(i as int));
        let place = placements.value_at(i);
        let id = placements.key_at(i);
        assert(ids.take(i + 1).last() == id@);
        let ghost before = shapes::pairs(panes@);
        let ghost probed = text::texts(probes@);
        if same(place.repo_key.as_str(), key) {
            let path = place.checkout_path.clone();
            panes.push((id.to_owned(), place.checkout_path.clone()));
            insert_ordered(&mut probes, path);
            proof {
                let now = shapes::pairs(panes@);
                assert(now =~= before.push((id@, place.checkout_path@)));
                assert forall|path: Seq<char>|
                    #[trigger] text::texts(probes@).contains(path) <==> exists|j: int|
                        0 <= j < now.len() && (#[trigger] now[j]).1 == path by {
                    if probed.contains(path) {
                        let j = choose|j: int|
                            0 <= j < before.len() && (#[trigger] before[j]).1 == path;
                        assert(now[j].1 == path);
                    }
                    if path == place.checkout_path@ {
                        assert(now[before.len() as int].1 == path);
                    }
                    if exists|j: int| 0 <= j < now.len() && (#[trigger] now[j]).1 == path {
                        let j = choose|j: int| 0 <= j < now.len() && (#[trigger] now[j]).1 == path;
                        if j < before.len() {
                            assert(before[j].1 == path);
                            assert(probed.contains(path));
                        }
                    }
                }
            }
        }
        i = i + 1;
    }
    assert(ids.take(i as int) =~= ids);
    RepoProbes { repo_key: key.to_owned(), probes, panes }
}

/// The keys of the groups.
pub open spec fn group_keys(groups: Seq<RepoProbes>) -> Seq<Seq<char>> {
    Seq::new(groups.len(), |i: int| groups[i].repo_key@)
}

/// Whether the groups are those of the repositories that the panes `ids` are in: each once, in
/// ascending order of the keys, with its panes and the checkouts to ask herdr through.
pub open spec fn are_repositories(
    groups: Seq<RepoProbes>,
    ids: Seq<Seq<char>>,
    places: tree::Places,
) -> bool {
    &&& text::ascending(group_keys(groups))
    &&& forall|key: Seq<char>| #[trigger]
        group_keys(groups).contains(key) <==> has_pane_in(places, key)
    &&& forall|g: int|
        0 <= g < groups.len() ==> shapes::pairs((#[trigger] groups[g]).panes@) == panes_in(
            ids,
            places,
            groups[g].repo_key@,
        ) && probes_are(text::texts(groups[g].probes@), shapes::pairs(groups[g].panes@))
}

/// The repositories that panes are in, in ascending order of their keys, with their panes and the
/// checkouts to ask herdr through.
pub fn repositories(placements: &OrderedMap<PanePlacement>) -> (groups: Vec<RepoProbes>)
    ensures
        are_repositories(groups@, placements.keys(), placements@),
{
    let mut keys: Vec<String> = Vec::new();
    let ghost ids = placements.keys();
    let mut i: usize = 0;
    let n = placements.len();
    while i < n
        invariant
            i <= n,
            n == ids.len(),
            ids == placements.keys(),
            text::ascending(text::texts(keys@)),
            forall|key: Seq<char>| #[trigger]
                text::texts(keys@).contains(key) <==> exists|j: int|
                    0 <= j < i && placements@[#[trigger] ids[j]].repo_key@ == key,
        decreases n - i,
    {
        let place = placements.value_at(i);
        let ghost before = text::texts(keys@);
        insert_ordered(&mut keys, place.repo_key.clone());
        assert forall|key: Seq<char>|
            #[trigger] text::texts(keys@).contains(key) <==> exists|j: int|
                0 <= j < i + 1 && placements@[#[trigger] ids[j]].repo_key@ == key by {
            if before.contains(key) {
                let j = choose|j: int| 0 <= j < i && placements@[#[trigger] ids[j]].repo_key@ == key;
                assert(placements@[ids[j]].repo_key@ == key);
            }
            if key == place.repo_key@ {
                assert(placements@[ids[i as int]].repo_key@ == key);
            }
            if exists|j: int| 0 <= j < i + 1 && placements@[#[trigger] ids[j]].repo_key@ == key {
                let j = choose|j: int|
                    0 <= j < i + 1 && placements@[#[trigger] ids[j]].repo_key@ == key;
                if j < i {
                    assert(before.contains(key));
                }
            }
        }
        i = i + 1;
    }
    proof {
        assert forall|key: Seq<char>|
            #[trigger] text::texts(keys@).contains(key) <==> has_pane_in(placements@, key) by {
            if text::texts(keys@).contains(key) {
                let j = choose|j: int| 0 <= j < i && placements@[#[trigger] ids[j]].repo_key@ == key;
                assert(ids.contains(ids[j]));
                assert(placements@.contains_key(ids[j]));
            }
            if has_pane_in(placements@, key) {
                let id = choose|id: Seq<char>| #[trigger]
                    placements@.contains_key(id) && placements@[id].repo_key@ == key;
                assert(ids.contains(id));
                let j = choose|j: int| 0 <= j < ids.len() && ids[j] == id;
                assert(placements@[ids[j]].repo_key@ == key);
            }
        }
    }
    let mut groups: Vec<RepoProbes> = Vec::new();
    let mut k: usize = 0;
    while k < keys.len()
        invariant
            k <= keys@.len(),
            group_keys(groups@) == text::texts(keys@).take(k as int),
            forall|g: int|
                0 <= g < groups@.len() ==> shapes::pairs((#[trigger] groups@[g]).panes@)
                    == panes_in(placements.keys(), placements@, groups@[g].repo_key@) && probes_are(
                    text::texts(groups@[g].probes@),
                    shapes::pairs(groups@[g].panes@),
                ),
        decreases keys@.len() - k,
    {
        let ghost before = group_keys(groups@);
        let group = probes_of(keys[k].as_str(), placements);
        groups.push(group);
        assert(group_keys(groups@) =~= before.push(keys@[k as int]@));
        assert(text::texts(keys@).take(k + 1) =~= before.push(keys@[k as int]@));
        k = k + 1;
    }
    assert(text::texts(keys@).take(k as int) =~= text::texts(keys@));
    groups
}

/// Whether an answer is herdr's listing of the repository under `key`.
pub open spec fn lists(answer: Result<WorktreeList, String>, key: Seq<char>) -> bool {
    match answer {
        Ok(listed) => model::normal_path(listed@.source.repo_key) == key,
        Err(_) => false,
    }
}

/// The place of the first answer that lists the repository, or the number of answers.
pub open spec fn first_listing(answers: Seq<Result<WorktreeList, String>>, key: Seq<char>) -> int
    decreases answers.len(),
{
    if answers.len() == 0 || lists(answers[0], key) {
        0
    } else {
        1 + first_listing(answers.skip(1), key)
    }
}

/// Why an answer through `probe` does not list the repository: herdr's words, or that it listed
/// another one.
pub open spec fn why_not(probe: Seq<char>, answer: Result<WorktreeList, String>) -> Seq<char> {
    match answer {
        Ok(listed) => "herdr listed "@ + probe + " as "@ + model::normal_path(
            listed@.source.repo_key,
        ),
        Err(error) => text::one_line(error@),
    }
}

/// How the listing of a repository goes on.
pub enum Probed {
    /// Ask herdr through this checkout.
    Ask(String),
    /// The answer at this place is the listing, of the repository in this directory.
    Listed { at: usize, repo_root: String },
    /// No checkout is left to ask through.
    NotListed(Unlisted),
}

#[verifier::ext_equal]
pub enum ProbedView {
    Ask(Seq<char>),
    Listed { at: int, repo_root: Seq<char> },
    NotListed(UnlistedView),
}

impl View for Probed {
    type V = ProbedView;

    open spec fn view(&self) -> ProbedView {
        match self {
            Probed::Ask(probe) => ProbedView::Ask(probe@),
            Probed::Listed { at, repo_root } => ProbedView::Listed {
                at: *at as int,
                repo_root: repo_root@,
            },
            Probed::NotListed(unlisted) => ProbedView::NotListed(unlisted@),
        }
    }
}

/// How the listing of a repository goes on, from the answers so far. The first answer that lists
/// it is the listing; where no probe gives one, what was said to the first is what is kept.
pub open spec fn probed(group: RepoProbes, answers: Seq<Result<WorktreeList, String>>) -> ProbedView {
    let key = group.repo_key@;
    let at = first_listing(answers, key);
    if at < answers.len() {
        ProbedView::Listed {
            at,
            repo_root: model::normal_path(answers[at]->Ok_0@.source.repo_root),
        }
    } else if answers.len() < group.probes@.len() {
        ProbedView::Ask(group.probes@[answers.len() as int]@)
    } else {
        ProbedView::NotListed(
            UnlistedView {
                repo_key: key,
                words: if answers.len() == 0 {
                    seq![]
                } else {
                    why_not(group.probes@[0]@, answers[0])
                },
                panes: shapes::pairs(group.panes@),
            },
        )
    }
}

/// How the listing of a repository goes on.
pub fn probe(group: &RepoProbes, answers: &Vec<Result<WorktreeList, String>>) -> (next: Probed)
    requires
        answers@.len() <= group.probes@.len(),
    ensures
        next@ == probed(*group, answers@),
{
    let ghost key = group.repo_key@;
    let mut i: usize = 0;
    assert(answers@.skip(0) =~= answers@);
    while i < answers.len()
        invariant
            i <= answers@.len(),
            key == group.repo_key@,
            first_listing(answers@, key) == i + first_listing(answers@.skip(i as int), key),
        decreases answers@.len() - i,
    {
        assert(answers@.skip(i as int)[0] == answers@[i as int]);
        match &answers[i] {
            Ok(listed) => {
                if same(
                    normalize_path(listed.source.repo_key.as_str()).as_str(),
                    group.repo_key.as_str(),
                ) {
                    let repo_root = normalize_path(listed.source.repo_root.as_str());
                    return Probed::Listed { at: i, repo_root };
                }
            },
            Err(_) => {},
        }
        assert(answers@.skip(i as int).skip(1) =~= answers@.skip(i + 1));
        i = i + 1;
    }
    if answers.len() < group.probes.len() {
        return Probed::Ask(group.probes[answers.len()].clone());
    }
    let words = if answers.len() == 0 {
        String::new()
    } else {
        match &answers[0] {
            Ok(listed) => {
                let mut words = "herdr listed ".to_owned();
                words.append(group.probes[0].as_str());
                words.append(" as ");
                words.append(normalize_path(listed.source.repo_key.as_str()).as_str());
                words
            },
            Err(error) => folded(error.as_str()),
        }
    };
    let panes = copied_pairs(&group.panes);
    Probed::NotListed(Unlisted { repo_key: group.repo_key.clone(), words, panes })
}

fn copied_pairs(pairs: &Vec<(String, String)>) -> (out: Vec<(String, String)>)
    ensures
        shapes::pairs(out@) == shapes::pairs(pairs@),
{
    let mut out: Vec<(String, String)> = Vec::new();
    let mut i: usize = 0;
    while i < pairs.len()
        invariant
            i <= pairs@.len(),
            shapes::pairs(out@) == shapes::pairs(pairs@).take(i as int),
        decreases pairs@.len() - i,
    {
        let ghost before = shapes::pairs(out@);
        out.push((pairs[i].0.clone(), pairs[i].1.clone()));
        assert(shapes::pairs(out@) =~= before.push(shapes::pairs(pairs@)[i as int]));
        assert(shapes::pairs(pairs@).take(i + 1) =~= before.push(shapes::pairs(pairs@)[i as int]));
        i = i + 1;
    }
    assert(shapes::pairs(pairs@).take(i as int) =~= shapes::pairs(pairs@));
    out
}

/// A listing that one checkout gives is taken whatever herdr said of those before it.
pub proof fn law_one_answer_lists_the_repository(
    group: RepoProbes,
    answers: Seq<Result<WorktreeList, String>>,
    i: int,
)
    requires
        0 <= i < answers.len(),
        lists(answers[i], group.repo_key@),
    ensures
        probed(group, answers) is Listed,
        probed(group, answers)->at <= i,
{
    lemma_first_listing(answers, group.repo_key@, i);
}

proof fn lemma_first_listing(answers: Seq<Result<WorktreeList, String>>, key: Seq<char>, i: int)
    requires
        0 <= i < answers.len(),
        lists(answers[i], key),
    ensures
        0 <= first_listing(answers, key) <= i,
    decreases answers.len(),
{
    if !lists(answers[0], key) {
        lemma_first_listing(answers.skip(1), key, i - 1);
    }
}

/// The repository that a listing makes: called as GitHub calls it where git could say, and as
/// herdr does otherwise.
pub open spec fn listed_repo(
    repo_key: Seq<char>,
    listed: WorktreeListView,
    slug: Result<Option<Seq<char>>, Seq<char>>,
) -> RepoInputView {
    RepoInputView {
        repo_key,
        repo_root: model::normal_path(listed.source.repo_root),
        display_name: match slug {
            Ok(Some(name)) => name,
            _ => listed.source.repo_name,
        },
        worktrees: listed.worktrees,
        refs: Ok(seq![]),
    }
}

/// The repository that a listing makes. Its refs are still to be read.
pub fn collect_repo(
    repo_key: &str,
    listed: WorktreeList,
    slug: &Result<Option<Slug>, String>,
) -> (repo: RepoInput)
    ensures
        repo@ == listed_repo(repo_key@, listed@, shapes::outcome_opt(*slug)),
{
    let repo_root = normalize_path(listed.source.repo_root.as_str());
    let display_name = match slug {
        Ok(Some(slug)) => slug.as_str().to_owned(),
        Ok(None) => listed.source.repo_name.clone(),
        Err(_) => listed.source.repo_name.clone(),
    };
    let repo = RepoInput {
        repo_key: repo_key.to_owned(),
        repo_root,
        display_name,
        worktrees: listed.worktrees,
        refs: Ok(Vec::new()),
    };
    assert(repo@.refs->Ok_0 =~= seq![]);
    repo
}

/// What came of a repository: what it is read as, or what is said of one that herdr would not
/// list.
pub type OutcomeView = Result<RepoInputView, UnlistedView>;

/// What an outcome stands for.
pub open spec fn outcome_view(outcome: Result<RepoInput, Unlisted>) -> OutcomeView {
    match outcome {
        Ok(repo) => Ok(repo@),
        Err(unlisted) => Err(unlisted@),
    }
}

/// What came of a repository, from the answers about it and what git calls it; nothing while there
/// is a checkout left to ask through.
pub open spec fn outcome_of(
    group: RepoProbes,
    answers: Seq<Result<WorktreeList, String>>,
    slug: Result<Option<Seq<char>>, Seq<char>>,
) -> Option<OutcomeView> {
    match probed(group, answers) {
        ProbedView::Ask(_) => None,
        ProbedView::Listed { at, .. } => Some(
            Ok(listed_repo(group.repo_key@, answers[at]->Ok_0@, slug)),
        ),
        ProbedView::NotListed(unlisted) => Some(Err(unlisted)),
    }
}

/// What came of a repository; nothing while there is a checkout left to ask through. What git calls
/// it is not looked at where herdr would not list it.
pub fn outcome(
    group: &RepoProbes,
    answers: Vec<Result<WorktreeList, String>>,
    slug: &Result<Option<Slug>, String>,
) -> (outcome: Option<Result<RepoInput, Unlisted>>)
    requires
        answers@.len() <= group.probes@.len(),
    ensures
        outcome_of(*group, answers@, shapes::outcome_opt(*slug)) == match outcome {
            Some(outcome) => Some(outcome_view(outcome)),
            None => None,
        },
{
    let ghost all = answers@;
    let mut answers = answers;
    match probe(group, &answers) {
        Probed::Ask(_) => None,
        Probed::NotListed(unlisted) => Some(Err(unlisted)),
        Probed::Listed { at, .. } => {
            proof {
                lemma_listing_is_one(all, group.repo_key@);
            }
            match answers.remove(at) {
                Ok(listed) => Some(Ok(collect_repo(group.repo_key.as_str(), listed, slug))),
                Err(_) => None,
            }
        },
    }
}

proof fn lemma_listing_is_one(answers: Seq<Result<WorktreeList, String>>, key: Seq<char>)
    ensures
        0 <= first_listing(answers, key) <= answers.len(),
        first_listing(answers, key) < answers.len() ==> lists(
            answers[first_listing(answers, key)],
            key,
        ),
    decreases answers.len(),
{
    if answers.len() > 0 && !lists(answers[0], key) {
        lemma_listing_is_one(answers.skip(1), key);
        let at = first_listing(answers.skip(1), key);
        if at < answers.len() - 1 {
            assert(answers.skip(1)[at] == answers[at + 1]);
        }
    }
}

/// The key of the repository that an outcome is of.
pub open spec fn outcome_key(outcome: OutcomeView) -> Seq<char> {
    match outcome {
        Ok(repo) => repo.repo_key,
        Err(unlisted) => unlisted.repo_key,
    }
}

/// The repositories that were listed, in their order.
pub open spec fn listed_in(outcomes: Seq<OutcomeView>) -> Seq<RepoInputView>
    decreases outcomes.len(),
{
    if outcomes.len() == 0 {
        seq![]
    } else {
        match outcomes.last() {
            Ok(repo) => listed_in(outcomes.drop_last()).push(repo),
            Err(_) => listed_in(outcomes.drop_last()),
        }
    }
}

/// The repositories that were not listed, in their order.
pub open spec fn unlisted_in(outcomes: Seq<OutcomeView>) -> Seq<UnlistedView>
    decreases outcomes.len(),
{
    if outcomes.len() == 0 {
        seq![]
    } else {
        match outcomes.last() {
            Ok(_) => unlisted_in(outcomes.drop_last()),
            Err(unlisted) => unlisted_in(outcomes.drop_last()).push(unlisted),
        }
    }
}

/// What the outcomes stand for.
pub open spec fn outcome_views(outcomes: Seq<Result<RepoInput, Unlisted>>) -> Seq<OutcomeView> {
    Seq::new(outcomes.len(), |i: int| outcome_view(outcomes[i]))
}

/// The keys of the outcomes.
pub open spec fn outcome_keys(outcomes: Seq<OutcomeView>) -> Seq<Seq<char>> {
    Seq::new(outcomes.len(), |i: int| outcome_key(outcomes[i]))
}

/// The keys of repositories that were listed.
pub open spec fn repo_keys(repos: Seq<RepoInputView>) -> Seq<Seq<char>> {
    Seq::new(repos.len(), |i: int| repos[i].repo_key)
}

/// The keys of repositories that were not listed.
pub open spec fn unlisted_keys(unlisted: Seq<UnlistedView>) -> Seq<Seq<char>> {
    Seq::new(unlisted.len(), |i: int| unlisted[i].repo_key)
}

/// Whether the two lists hold the repositories under `keys`: each in one of the two, once and in
/// ascending order, and no other.
pub open spec fn share(
    repos: Seq<RepoInputView>,
    unlisted: Seq<UnlistedView>,
    keys: Seq<Seq<char>>,
) -> bool {
    &&& text::ascending(repo_keys(repos))
    &&& text::ascending(unlisted_keys(unlisted))
    &&& forall|key: Seq<char>| #[trigger]
        keys.contains(key) <==> repo_keys(repos).contains(key) || unlisted_keys(unlisted).contains(
            key,
        )
    &&& forall|key: Seq<char>| #[trigger]
        keys.contains(key) ==> !(repo_keys(repos).contains(key) && unlisted_keys(
            unlisted,
        ).contains(key))
}

/// An outcome is in the list that it belongs to, and nothing else is in either.
proof fn lemma_filed_holds(outcomes: Seq<OutcomeView>, repo: RepoInputView, other: UnlistedView)
    ensures
        listed_in(outcomes).contains(repo) <==> outcomes.contains(Ok(repo)),
        unlisted_in(outcomes).contains(other) <==> outcomes.contains(Err(other)),
    decreases outcomes.len(),
{
    if outcomes.len() > 0 {
        let front = outcomes.drop_last();
        let last = outcomes.last();
        lemma_filed_holds(front, repo, other);
        assert(outcomes =~= front.push(last));
        vstd::seq_lib::lemma_seq_contains_after_push(front, last, Ok(repo));
        vstd::seq_lib::lemma_seq_contains_after_push(front, last, Err(other));
        match last {
            Ok(one) => {
                vstd::seq_lib::lemma_seq_contains_after_push(listed_in(front), one, repo);
            },
            Err(one) => {
                vstd::seq_lib::lemma_seq_contains_after_push(unlisted_in(front), one, other);
            },
        }
    } else {
        assert(!outcomes.contains(Ok(repo)));
    }
}

proof fn lemma_filed_keys(outcomes: Seq<OutcomeView>, key: Seq<char>)
    ensures
        repo_keys(listed_in(outcomes)).contains(key) <==> exists|i: int|
            0 <= i < outcomes.len() && (#[trigger] outcomes[i]) is Ok && outcome_key(outcomes[i])
                == key,
        unlisted_keys(unlisted_in(outcomes)).contains(key) <==> exists|i: int|
            0 <= i < outcomes.len() && (#[trigger] outcomes[i]) is Err && outcome_key(outcomes[i])
                == key,
{
    let repos = listed_in(outcomes);
    let others = unlisted_in(outcomes);
    let no_repo = arbitrary::<RepoInputView>();
    let no_other = arbitrary::<UnlistedView>();
    if repo_keys(repos).contains(key) {
        let k = choose|k: int| 0 <= k < repos.len() && repo_keys(repos)[k] == key;
        assert(repos.contains(repos[k]));
        lemma_filed_holds(outcomes, repos[k], no_other);
        let i = choose|i: int| 0 <= i < outcomes.len() && outcomes[i] == Ok::<
            RepoInputView,
            UnlistedView,
        >(repos[k]);
        assert(outcomes[i] is Ok);
    }
    if exists|i: int|
        0 <= i < outcomes.len() && (#[trigger] outcomes[i]) is Ok && outcome_key(outcomes[i])
            == key {
        let i = choose|i: int|
            0 <= i < outcomes.len() && (#[trigger] outcomes[i]) is Ok && outcome_key(outcomes[i])
                == key;
        lemma_filed_holds(outcomes, outcomes[i]->Ok_0, no_other);
        let k = choose|k: int| 0 <= k < repos.len() && repos[k] == outcomes[i]->Ok_0;
        assert(repo_keys(repos)[k] == key);
    }
    if unlisted_keys(others).contains(key) {
        let k = choose|k: int| 0 <= k < others.len() && unlisted_keys(others)[k] == key;
        assert(others.contains(others[k]));
        lemma_filed_holds(outcomes, no_repo, others[k]);
        let i = choose|i: int| 0 <= i < outcomes.len() && outcomes[i] == Err::<
            RepoInputView,
            UnlistedView,
        >(others[k]);
        assert(outcomes[i] is Err);
    }
    if exists|i: int|
        0 <= i < outcomes.len() && (#[trigger] outcomes[i]) is Err && outcome_key(outcomes[i])
            == key {
        let i = choose|i: int|
            0 <= i < outcomes.len() && (#[trigger] outcomes[i]) is Err && outcome_key(outcomes[i])
                == key;
        lemma_filed_holds(outcomes, no_repo, outcomes[i]->Err_0);
        let k = choose|k: int| 0 <= k < others.len() && others[k] == outcomes[i]->Err_0;
        assert(unlisted_keys(others)[k] == key);
    }
}

proof fn lemma_filed_ascends(outcomes: Seq<OutcomeView>)
    requires
        text::ascending(outcome_keys(outcomes)),
    ensures
        text::ascending(repo_keys(listed_in(outcomes))),
        text::ascending(unlisted_keys(unlisted_in(outcomes))),
    decreases outcomes.len(),
{
    if outcomes.len() > 0 {
        let front = outcomes.drop_last();
        let keys = outcome_keys(outcomes);
        assert(outcome_keys(front) =~= keys.drop_last());
        lemma_filed_ascends(front);
        let repos = repo_keys(listed_in(front));
        let others = unlisted_keys(unlisted_in(front));
        assert forall|k: int| 0 <= k < repos.len() implies text::before(
            #[trigger] repos[k],
            keys.last(),
        ) by {
            assert(repos.contains(repos[k]));
            lemma_filed_keys(front, repos[k]);
            let i = choose|i: int|
                0 <= i < front.len() && (#[trigger] front[i]) is Ok && outcome_key(front[i])
                    == repos[k];
            assert(keys[i] == repos[k]);
        }
        assert forall|k: int| 0 <= k < others.len() implies text::before(
            #[trigger] others[k],
            keys.last(),
        ) by {
            assert(others.contains(others[k]));
            lemma_filed_keys(front, others[k]);
            let i = choose|i: int|
                0 <= i < front.len() && (#[trigger] front[i]) is Err && outcome_key(front[i])
                    == others[k];
            assert(keys[i] == others[k]);
        }
        match outcomes.last() {
            Ok(repo) => {
                assert(repo_keys(listed_in(outcomes)) =~= repos.push(keys.last()));
            },
            Err(unlisted) => {
                assert(unlisted_keys(unlisted_in(outcomes)) =~= others.push(keys.last()));
            },
        }
    }
}

proof fn lemma_filed_shares(outcomes: Seq<OutcomeView>, keys: Seq<Seq<char>>)
    requires
        text::ascending(keys),
        outcome_keys(outcomes) == keys,
    ensures
        share(listed_in(outcomes), unlisted_in(outcomes), keys),
{
    lemma_filed_ascends(outcomes);
    let repos = repo_keys(listed_in(outcomes));
    let others = unlisted_keys(unlisted_in(outcomes));
    assert forall|key: Seq<char>| #[trigger]
        keys.contains(key) <==> repos.contains(key) || others.contains(key) by {
        lemma_filed_keys(outcomes, key);
        if keys.contains(key) {
            let i = choose|i: int| 0 <= i < keys.len() && keys[i] == key;
            assert(outcome_key(outcomes[i]) == key);
            assert(outcomes[i] is Ok || outcomes[i] is Err);
        }
        if repos.contains(key) {
            let i = choose|i: int|
                0 <= i < outcomes.len() && (#[trigger] outcomes[i]) is Ok && outcome_key(
                    outcomes[i],
                ) == key;
            assert(keys[i] == key);
        }
        if others.contains(key) {
            let i = choose|i: int|
                0 <= i < outcomes.len() && (#[trigger] outcomes[i]) is Err && outcome_key(
                    outcomes[i],
                ) == key;
            assert(keys[i] == key);
        }
    }
    assert forall|key: Seq<char>| #[trigger]
        keys.contains(key) implies !(repos.contains(key) && others.contains(key)) by {
        lemma_filed_keys(outcomes, key);
        if repos.contains(key) && others.contains(key) {
            let i = choose|i: int|
                0 <= i < outcomes.len() && (#[trigger] outcomes[i]) is Ok && outcome_key(
                    outcomes[i],
                ) == key;
            let j = choose|j: int|
                0 <= j < outcomes.len() && (#[trigger] outcomes[j]) is Err && outcome_key(
                    outcomes[j],
                ) == key;
            assert(keys[i] == key && keys[j] == key && i != j);
            text::lemma_before_total(key, key);
        }
    }
}

/// The repositories that were listed, and those that were not, from what came of each group: every
/// repository is in one of the two lists, once, and both are in ascending order of the keys.
pub fn filed(groups: &Vec<RepoProbes>, outcomes: Vec<Result<RepoInput, Unlisted>>) -> (lists: (
    Vec<RepoInput>,
    Vec<Unlisted>,
))
    requires
        text::ascending(group_keys(groups@)),
        outcome_keys(outcome_views(outcomes@)) == group_keys(groups@),
    ensures
        shapes::views(lists.0@) == listed_in(outcome_views(outcomes@)),
        shapes::views(lists.1@) == unlisted_in(outcome_views(outcomes@)),
        share(shapes::views(lists.0@), shapes::views(lists.1@), group_keys(groups@)),
{
    let ghost given = outcomes@;
    let ghost all = outcome_views(given);
    proof {
        lemma_filed_shares(all, group_keys(groups@));
    }
    let count = outcomes.len();
    let mut back = reversed(outcomes);
    let mut repos: Vec<RepoInput> = Vec::new();
    let mut unlisted: Vec<Unlisted> = Vec::new();
    let mut i: usize = 0;
    assert(back@.reverse() =~= given.skip(0));
    assert(shapes::views(repos@) =~= listed_in(all.take(0)));
    assert(shapes::views(unlisted@) =~= unlisted_in(all.take(0)));
    while i < count
        invariant
            i <= count,
            count == given.len(),
            all == outcome_views(given),
            back@.reverse() == given.skip(i as int),
            shapes::views(repos@) == listed_in(all.take(i as int)),
            shapes::views(unlisted@) == unlisted_in(all.take(i as int)),
        decreases count - i,
    {
        let ghost left = back@;
        assert(left.reverse().len() == left.len());
        assert(all.take(i + 1).drop_last() =~= all.take(i as int));
        match back.pop() {
            Some(outcome) => {
                assert(left.reverse()[0] == outcome);
                assert(outcome == given[i as int]);
                assert(back@.reverse() =~= left.reverse().skip(1));
                assert(given.skip(i as int).skip(1) =~= given.skip(i + 1));
                assert(all.take(i + 1).last() == outcome_view(outcome));
                match outcome {
                    Ok(repo) => {
                        proof {
                            shapes::lemma_views_push(repos@, repo);
                        }
                        repos.push(repo);
                    },
                    Err(one) => {
                        proof {
                            shapes::lemma_views_push(unlisted@, one);
                        }
                        unlisted.push(one);
                    },
                }
            },
            None => {},
        }
        i = i + 1;
    }
    assert(all.take(i as int) =~= all);
    (repos, unlisted)
}

/// What came of the groups, each from its own answers.
pub open spec fn outcomes_of(
    groups: Seq<RepoProbes>,
    answers: Seq<Seq<Result<WorktreeList, String>>>,
    slugs: Seq<Result<Option<Seq<char>>, Seq<char>>>,
) -> Seq<OutcomeView> {
    Seq::new(groups.len(), |i: int| outcome_of(groups[i], answers[i], slugs[i])->Some_0)
}

/// Whether nothing is left to ask herdr about any of the groups.
pub open spec fn are_asked(
    groups: Seq<RepoProbes>,
    answers: Seq<Seq<Result<WorktreeList, String>>>,
) -> bool {
    answers.len() == groups.len() && forall|i: int|
        0 <= i < groups.len() ==> !(probed(#[trigger] groups[i], answers[i]) is Ask)
}

/// Whatever herdr and git answered, every repository that a pane is in is in one of the two lists,
/// once, and no other is; and one that was not listed keeps all of its panes.
pub proof fn law_every_repository_is_in_one_list(
    groups: Seq<RepoProbes>,
    ids: Seq<Seq<char>>,
    places: tree::Places,
    answers: Seq<Seq<Result<WorktreeList, String>>>,
    slugs: Seq<Result<Option<Seq<char>>, Seq<char>>>,
    key: Seq<char>,
    one: UnlistedView,
)
    requires
        are_repositories(groups, ids, places),
        are_asked(groups, answers),
    ensures
        ({
            let outcomes = outcomes_of(groups, answers, slugs);
            let listed = repo_keys(listed_in(outcomes)).contains(key);
            let not_listed = unlisted_keys(unlisted_in(outcomes)).contains(key);
            &&& share(listed_in(outcomes), unlisted_in(outcomes), group_keys(groups))
            &&& has_pane_in(places, key) <==> listed || not_listed
            &&& !(listed && not_listed)
            &&& unlisted_in(outcomes).contains(one) ==> one.panes == panes_in(
                ids,
                places,
                one.repo_key,
            )
        }),
{
    let outcomes = outcomes_of(groups, answers, slugs);
    assert(outcome_keys(outcomes) =~= group_keys(groups));
    lemma_filed_shares(outcomes, group_keys(groups));
    assert(group_keys(groups).contains(key) <==> has_pane_in(places, key));
    if unlisted_in(outcomes).contains(one) {
        lemma_filed_holds(outcomes, arbitrary::<RepoInputView>(), one);
        let i = choose|i: int| 0 <= i < outcomes.len() && outcomes[i] == Err::<
            RepoInputView,
            UnlistedView,
        >(one);
        assert(shapes::pairs(groups[i].panes@) == panes_in(ids, places, groups[i].repo_key@));
    }
}

/// What herdr and git answered about one repository changes nothing about another.
pub proof fn law_one_repository_changes_no_other(
    groups: Seq<RepoProbes>,
    answers: Seq<Seq<Result<WorktreeList, String>>>,
    slugs: Seq<Result<Option<Seq<char>>, Seq<char>>>,
    at: int,
    other_answers: Seq<Result<WorktreeList, String>>,
    other_slug: Result<Option<Seq<char>>, Seq<char>>,
    repo: RepoInputView,
    unlisted: UnlistedView,
)
    requires
        0 <= at < groups.len(),
        slugs.len() == groups.len(),
        are_asked(groups, answers),
        are_asked(groups, answers.update(at, other_answers)),
        repo.repo_key != groups[at].repo_key@,
        unlisted.repo_key != groups[at].repo_key@,
    ensures
        ({
            let outcomes = outcomes_of(groups, answers, slugs);
            let others = outcomes_of(
                groups,
                answers.update(at, other_answers),
                slugs.update(at, other_slug),
            );
            &&& listed_in(outcomes).contains(repo) <==> listed_in(others).contains(repo)
            &&& unlisted_in(outcomes).contains(unlisted) <==> unlisted_in(others).contains(
                unlisted,
            )
        }),
{
    let changed = answers.update(at, other_answers);
    let outcomes = outcomes_of(groups, answers, slugs);
    let others = outcomes_of(groups, changed, slugs.update(at, other_slug));
    lemma_filed_holds(outcomes, repo, unlisted);
    lemma_filed_holds(others, repo, unlisted);
    assert(!(probed(groups[at], answers[at]) is Ask));
    assert(!(probed(groups[at], changed[at]) is Ask));
    assert(outcome_key(outcomes[at]) == groups[at].repo_key@);
    assert(outcome_key(others[at]) == groups[at].repo_key@);
    assert forall|one: OutcomeView|
        outcome_key(one) != groups[at].repo_key@ implies #[trigger] outcomes.contains(one)
        == others.contains(one) by {
        if outcomes.contains(one) {
            let i = choose|i: int| 0 <= i < outcomes.len() && outcomes[i] == one;
            assert(others[i] == one);
        }
        if others.contains(one) {
            let i = choose|i: int| 0 <= i < others.len() && others[i] == one;
            assert(outcomes[i] == one);
        }
    }
    assert(outcomes.contains(Ok(repo)) <==> others.contains(Ok(repo)));
    assert(outcomes.contains(Err(unlisted)) <==> others.contains(Err(unlisted)));
}

// ---------------------------------------------------------------- refs

/// The refs that a walk read. A walk that left a ref out is none.
pub open spec fn walked(reply: Reply<RefWalk>) -> Result<Seq<GitRefView>, Seq<char>> {
    match reply {
        Reply::Lost => Err("the thread reading them did not finish"@),
        Reply::Answered(Err(error)) => Err(text::one_line(error@)),
        Reply::Answered(Ok(walk)) => match walk.dropped {
            Some(words) => Err(text::one_line(words@)),
            None => Ok(shapes::views(walk.refs@)),
        },
    }
}

/// The refs that a walk read, or the words for why they are not to be had, on one line.
pub fn refs_of_walk(reply: Reply<RefWalk>) -> (refs: Result<Vec<GitRef>, String>)
    ensures
        tree::refs_view(refs) == walked(reply),
{
    match reply {
        Reply::Lost => Err("the thread reading them did not finish".to_owned()),
        Reply::Answered(Err(error)) => Err(folded(error.as_str())),
        Reply::Answered(Ok(walk)) => match walk.dropped {
            Some(words) => Err(folded(words.as_str())),
            None => Ok(walk.refs),
        },
    }
}

/// The repository with the refs that its walk read.
pub fn read_refs(repo: RepoInput, reply: Reply<RefWalk>) -> (read: RepoInput)
    ensures
        read@ == (RepoInputView { refs: walked(reply), ..repo@ }),
{
    RepoInput {
        repo_key: repo.repo_key,
        repo_root: repo.repo_root,
        display_name: repo.display_name,
        worktrees: repo.worktrees,
        refs: refs_of_walk(reply),
    }
}

// ---------------------------------------------------------------- the tree

/// The tree of a session, with what could not be read while it was.
pub fn collect_tree(
    snapshot: &Snapshot,
    repos: &Vec<RepoInput>,
    placements: &OrderedMap<PanePlacement>,
    unlisted: Vec<Unlisted>,
    unplaced: OrderedMap<String>,
) -> (tree: Tree)
    ensures
        shapes::views(tree.repos@) == tree::repo_nodes(
            shapes::views(repos@),
            snapshot@.panes,
            placements@,
        ),
        shapes::views(tree.ungrouped@) == tree::panes_at(snapshot@.panes, placements@, None),
        tree.trouble.unlisted == unlisted,
        tree.trouble.unplaced == unplaced,
{
    let built = build(snapshot, repos, placements);
    Tree {
        repos: built.repos,
        ungrouped: built.ungrouped,
        trouble: model::Trouble { unlisted, unplaced },
    }
}

// ---------------------------------------------------------------- laws of places

/// Whether a path is a directory or lies below it, in its one spelling.
pub open spec fn at_or_below(path: Seq<char>, root: Seq<char>) -> bool {
    model::normal_path(path) == model::normal_path(root) || (model::normal_path(root) + seq![
        '/',
    ]).is_prefix_of(model::normal_path(path))
}

/// A path is inside a directory exactly where it is that directory, or the directory and a slash
/// stand at its front. So a sibling whose name only starts alike is outside.
pub proof fn law_inside_is_at_or_below(path: Seq<char>, root: Seq<char>)
    ensures
        inside(path, root) <==> at_or_below(path, root),
{
    let p = model::normal_path(path);
    let r = model::normal_path(root);
    let front = r + seq!['/'];
    if front.is_prefix_of(p) {
        assert(p.subrange(0, front.len() as int) == front);
        assert(p[r.len() as int] == front[r.len() as int]);
        assert(p.subrange(0, r.len() as int) =~= r);
    }
    if r.is_prefix_of(p) && p.len() > r.len() && p[r.len() as int] == '/' {
        assert(p.subrange(0, r.len() as int) == r);
        assert(p.subrange(0, front.len() as int) =~= front);
    }
}

/// A workspace is in the checkout that is said of it last, in its one spelling.
pub proof fn law_workspace_is_where_it_was_said_last(
    before: Seq<WorkspaceView>,
    one: WorkspaceView,
    behind: Seq<WorkspaceView>,
    id: Seq<char>,
)
    requires
        one.workspace_id == id,
        one.worktree is Some,
        forall|i: int|
            0 <= i < behind.len() ==> (#[trigger] behind[i]).workspace_id != id
                || behind[i].worktree is None,
    ensures
        workspace_place(before.push(one) + behind, id) == Some(
            (
                model::normal_path(one.worktree->0.repo_key),
                model::normal_path(one.worktree->0.checkout_path),
            ),
        ),
        workspace_place(behind, id) is None,
    decreases behind.len(),
{
    let all = before.push(one) + behind;
    if behind.len() == 0 {
        assert(all =~= before.push(one));
    } else {
        let rest = behind.drop_last();
        assert forall|i: int| 0 <= i < rest.len() implies (#[trigger] rest[i]).workspace_id != id
            || rest[i].worktree is None by {
            assert(behind[i].workspace_id != id || behind[i].worktree is None);
        }
        law_workspace_is_where_it_was_said_last(before, one, rest, id);
        assert(all.drop_last() =~= before.push(one) + rest);
        assert(all.last() == behind[behind.len() - 1]);
    }
}

/// Whether no other pane has the id of the one at `i`.
pub open spec fn is_only(panes: Seq<PaneView>, i: int) -> bool {
    forall|j: int|
        0 <= j < panes.len() && j != i ==> (#[trigger] panes[j]).pane_id != panes[i].pane_id
}

/// Where git was asked about the directory of a pane, whether the pane is where git said: at the
/// place that it named, nowhere where it knows of no repository, and nowhere but with its words
/// where it would not say.
pub open spec fn is_where_git_said(places: PlacesView, id: Seq<char>, answers: Answers, cwd: Seq<char>) -> bool {
    if answers.contains_key(cwd) {
        match shapes::outcome_opt(answers[cwd]) {
            Ok(Some(place)) => places.placements.contains_key(id) && places.placements[id] == place
                && !places.unplaced.contains_key(id),
            Ok(None) => !places.placements.contains_key(id) && !places.unplaced.contains_key(id),
            Err(words) => !places.placements.contains_key(id) && places.unplaced.contains_key(id)
                && places.unplaced[id] == words,
        }
    } else {
        !places.placements.contains_key(id) && !places.unplaced.contains_key(id)
    }
}

/// A pane is placed by its workspace alone only where its directory is that workspace's checkout or
/// lies below it. Git is asked about the directory of every other pane that has one, and such a
/// pane is where git says that its directory is, never in the checkout of its workspace for that.
pub proof fn law_pane_is_where_its_directory_is(snapshot: SnapshotView, answers: Answers, i: int)
    requires
        0 <= i < snapshot.panes.len(),
        is_only(snapshot.panes, i),
    ensures
        ({
            let pane = snapshot.panes[i];
            let home = workspace_place(snapshot.workspaces, pane.workspace_id);
            let places = resolved_places(snapshot, answers);
            match pane.effective_cwd() {
                Some(cwd) => if home matches Some((key, path)) && at_or_below(cwd, path) {
                    &&& places.placements.contains_key(pane.pane_id)
                    &&& places.placements[pane.pane_id] == home->0
                    &&& !places.unplaced.contains_key(pane.pane_id)
                } else {
                    &&& asks_about(snapshot.workspaces, snapshot.panes, cwd)
                    &&& is_where_git_said(places, pane.pane_id, answers, cwd)
                },
                None => !places.placements.contains_key(pane.pane_id)
                    && !places.unplaced.contains_key(pane.pane_id),
            }
        }),
{
    let pane = snapshot.panes[i];
    let known = known_places(snapshot.workspaces, snapshot.panes);
    match (pane.effective_cwd(), workspace_place(snapshot.workspaces, pane.workspace_id)) {
        (Some(cwd), Some((key, path))) => {
            law_inside_is_at_or_below(cwd, path);
        },
        _ => {},
    }
    lemma_known_places(snapshot.workspaces, snapshot.panes, i);
    lemma_asked_places(known, snapshot.panes, answers, i);
}

/// Git is asked about a directory only where a pane is in it that its workspace does not place.
pub proof fn law_git_is_asked_only_where_it_has_to_be(
    workspaces: Seq<WorkspaceView>,
    panes: Seq<PaneView>,
    cwd: Seq<char>,
)
    requires
        asks_about(workspaces, panes, cwd),
    ensures
        exists|i: int|
            0 <= i < panes.len() && (#[trigger] panes[i]).effective_cwd() == Some(cwd) && !(
            workspace_place(workspaces, panes[i].workspace_id) matches Some((key, path))
                && at_or_below(cwd, path)),
{
    let i = choose|i: int|
        0 <= i < panes.len() && #[trigger] panes[i].effective_cwd() == Some(cwd) && known_place(
            workspaces,
            panes[i],
        ) is None;
    match workspace_place(workspaces, panes[i].workspace_id) {
        Some((key, path)) => {
            law_inside_is_at_or_below(cwd, path);
        },
        None => {},
    }
    assert(panes[i].effective_cwd() == Some(cwd));
}

proof fn lemma_known_places(workspaces: Seq<WorkspaceView>, panes: Seq<PaneView>, i: int)
    requires
        0 <= i < panes.len(),
        is_only(panes, i),
    ensures
        known_places(workspaces, panes).contains_key(panes[i].pane_id) <==> known_place(
            workspaces,
            panes[i],
        ) is Some,
        known_place(workspaces, panes[i]) matches Some(place) ==> known_places(workspaces, panes)[
            panes[i].pane_id
        ] == place,
    decreases panes.len(),
{
    let front = panes.drop_last();
    if i == panes.len() - 1 {
        lemma_known_places_lack(workspaces, front, panes[i].pane_id);
    } else {
        assert(front[i] == panes[i]);
        assert(is_only(front, i)) by {
            assert forall|j: int| 0 <= j < front.len() && j != i implies (#[trigger] front[j]).pane_id
                != front[i].pane_id by {
                assert(panes[j].pane_id != panes[i].pane_id);
            }
        }
        lemma_known_places(workspaces, front, i);
        assert(panes[panes.len() - 1].pane_id != panes[i].pane_id);
    }
}

proof fn lemma_known_places_lack(workspaces: Seq<WorkspaceView>, panes: Seq<PaneView>, id: Seq<char>)
    requires
        forall|j: int| 0 <= j < panes.len() ==> (#[trigger] panes[j]).pane_id != id,
    ensures
        !known_places(workspaces, panes).contains_key(id),
    decreases panes.len(),
{
    if panes.len() > 0 {
        assert(panes[panes.len() - 1].pane_id != id);
        lemma_known_places_lack(workspaces, panes.drop_last(), id);
    }
}

proof fn lemma_asked_places(
    known: Map<Seq<char>, (Seq<char>, Seq<char>)>,
    panes: Seq<PaneView>,
    answers: Answers,
    i: int,
)
    requires
        0 <= i < panes.len(),
        is_only(panes, i),
    ensures
        ({
            let places = asked_places(known, panes, answers);
            let id = panes[i].pane_id;
            if known.contains_key(id) {
                places.placements.contains_key(id) && places.placements[id] == known[id]
                    && !places.unplaced.contains_key(id)
            } else {
                match panes[i].effective_cwd() {
                    Some(cwd) => is_where_git_said(places, id, answers, cwd),
                    None => !places.placements.contains_key(id) && !places.unplaced.contains_key(
                        id,
                    ),
                }
            }
        }),
    decreases panes.len(),
{
    let front = panes.drop_last();
    if i == panes.len() - 1 {
        lemma_asked_places_lack(known, front, answers, panes[i].pane_id);
    } else {
        assert(front[i] == panes[i]);
        assert(is_only(front, i)) by {
            assert forall|j: int| 0 <= j < front.len() && j != i implies (#[trigger] front[j]).pane_id
                != front[i].pane_id by {
                assert(panes[j].pane_id != panes[i].pane_id);
            }
        }
        lemma_asked_places(known, front, answers, i);
        assert(panes[panes.len() - 1].pane_id != panes[i].pane_id);
    }
}

proof fn lemma_asked_places_lack(
    known: Map<Seq<char>, (Seq<char>, Seq<char>)>,
    panes: Seq<PaneView>,
    answers: Answers,
    id: Seq<char>,
)
    requires
        forall|j: int| 0 <= j < panes.len() ==> (#[trigger] panes[j]).pane_id != id,
    ensures
        asked_places(known, panes, answers).placements.contains_key(id) == known.contains_key(id),
        known.contains_key(id) ==> asked_places(known, panes, answers).placements[id] == known[id],
        !asked_places(known, panes, answers).unplaced.contains_key(id),
    decreases panes.len(),
{
    if panes.len() > 0 {
        assert(panes[panes.len() - 1].pane_id != id);
        lemma_asked_places_lack(known, panes.drop_last(), answers, id);
    }
}

/// A listing counts as that of a repository only where it says that it is; the first that does is
/// taken, the checkouts are asked in their order, and one that none lists keeps what was said to
/// the first question and all of its panes.
pub proof fn law_only_its_own_listing_is_taken(
    group: RepoProbes,
    answers: Seq<Result<WorktreeList, String>>,
)
    requires
        answers.len() <= group.probes@.len(),
    ensures
        match probed(group, answers) {
            ProbedView::Listed { at, repo_root } => {
                &&& 0 <= at < answers.len()
                &&& answers[at] matches Ok(listed) && model::normal_path(listed@.source.repo_key)
                    == group.repo_key@ && repo_root == model::normal_path(listed@.source.repo_root)
                &&& forall|i: int|
                    0 <= i < at ==> !(#[trigger] answers[i] matches Ok(listed)
                        && model::normal_path(listed@.source.repo_key) == group.repo_key@)
            },
            ProbedView::Ask(path) => {
                &&& answers.len() < group.probes@.len()
                &&& path == group.probes@[answers.len() as int]@
                &&& forall|i: int|
                    0 <= i < answers.len() ==> !(#[trigger] answers[i] matches Ok(listed)
                        && model::normal_path(listed@.source.repo_key) == group.repo_key@)
            },
            ProbedView::NotListed(unlisted) => {
                &&& answers.len() == group.probes@.len()
                &&& unlisted.repo_key == group.repo_key@
                &&& unlisted.panes == shapes::pairs(group.panes@)
                &&& answers.len() > 0 ==> (answers[0] matches Err(words) ==> unlisted.words
                    == text::one_line(words@))
                &&& forall|i: int|
                    0 <= i < answers.len() ==> !(#[trigger] answers[i] matches Ok(listed)
                        && model::normal_path(listed@.source.repo_key) == group.repo_key@)
            },
        },
{
    lemma_listing_is_one(answers, group.repo_key@);
    lemma_none_before(answers, group.repo_key@);
}

proof fn lemma_none_before(answers: Seq<Result<WorktreeList, String>>, key: Seq<char>)
    ensures
        forall|i: int|
            0 <= i < first_listing(answers, key) && i < answers.len() ==> !lists(
                #[trigger] answers[i],
                key,
            ),
    decreases answers.len(),
{
    if answers.len() > 0 && !lists(answers[0], key) {
        let rest = answers.skip(1);
        lemma_none_before(rest, key);
        assert forall|i: int|
            0 <= i < first_listing(answers, key) && i < answers.len() implies !lists(
            #[trigger] answers[i],
            key,
        ) by {
            if i > 0 {
                assert(rest[i - 1] == answers[i]);
            }
        }
    }
}

/// A repository that is listed has the checkouts that its own listing names, under the key that its
/// panes were found by, and is called as GitHub calls it where git could say.
pub proof fn law_listed_repository_is_its_listing(
    repo_key: Seq<char>,
    listed: WorktreeListView,
    name: Seq<char>,
    words: Seq<char>,
)
    ensures
        forall|slug: Result<Option<Seq<char>>, Seq<char>>|
            (#[trigger] listed_repo(repo_key, listed, slug)).repo_key == repo_key && listed_repo(
                repo_key,
                listed,
                slug,
            ).worktrees == listed.worktrees && listed_repo(repo_key, listed, slug).repo_root
                == model::normal_path(listed.source.repo_root),
        listed_repo(repo_key, listed, Ok(Some(name))).display_name == name,
        listed_repo(repo_key, listed, Ok(None)).display_name == listed.source.repo_name,
        listed_repo(repo_key, listed, Err(words)).display_name == listed.source.repo_name,
{
}

/// The panes of a repository are exactly those that were placed in it, each with the checkout that
/// it was placed in.
pub proof fn law_panes_are_those_placed_there(
    ids: Seq<Seq<char>>,
    places: tree::Places,
    key: Seq<char>,
    pane: (Seq<char>, Seq<char>),
)
    ensures
        panes_in(ids, places, key).contains(pane) <==> exists|i: int|
            0 <= i < ids.len() && (#[trigger] ids[i]) == pane.0 && places[ids[i]].repo_key@ == key
                && places[ids[i]].checkout_path@ == pane.1,
    decreases ids.len(),
{
    let all = panes_in(ids, places, key);
    if ids.len() > 0 {
        let front = ids.drop_last();
        let so_far = panes_in(front, places, key);
        law_panes_are_those_placed_there(front, places, key, pane);
        if so_far.contains(pane) {
            let i = choose|i: int|
                0 <= i < front.len() && (#[trigger] front[i]) == pane.0 && places[front[i]].repo_key@
                    == key && places[front[i]].checkout_path@ == pane.1;
            assert(ids[i] == pane.0);
            let k = choose|k: int| 0 <= k < so_far.len() && so_far[k] == pane;
            assert(all[k] == pane);
        }
        if all.contains(pane) && !so_far.contains(pane) {
            let k = choose|k: int| 0 <= k < all.len() && all[k] == pane;
            if k < so_far.len() {
                assert(so_far[k] == pane);
            }
            assert(ids[ids.len() - 1] == pane.0);
        }
        if exists|i: int|
            0 <= i < ids.len() && (#[trigger] ids[i]) == pane.0 && places[ids[i]].repo_key@ == key
                && places[ids[i]].checkout_path@ == pane.1 {
            let i = choose|i: int|
                0 <= i < ids.len() && (#[trigger] ids[i]) == pane.0 && places[ids[i]].repo_key@
                    == key && places[ids[i]].checkout_path@ == pane.1;
            if i < front.len() {
                assert(front[i] == pane.0);
            } else {
                assert(all[all.len() - 1] == pane);
            }
        }
    }
}

/// A walk that git left a ref out of is not taken for the whole: its refs count as not read, in
/// git's own words, and so do those of a walk that failed or never ended.
pub proof fn law_short_walk_is_not_read(reply: Reply<RefWalk>)
    ensures
        walked(reply) is Ok <==> (reply matches Reply::Answered(Ok(walk)) && walk.dropped is None),
        walked(reply) matches Ok(refs) ==> (reply matches Reply::Answered(Ok(walk)) && refs
            == shapes::views(walk.refs@)),
        reply matches Reply::Answered(Err(error)) ==> walked(reply) == Err::<
            Seq<GitRefView>,
            Seq<char>,
        >(text::one_line(error@)),
        reply matches Reply::Answered(Ok(walk)) ==> (walk.dropped matches Some(words) ==> walked(
            reply,
        ) == Err::<Seq<GitRefView>, Seq<char>>(text::one_line(words@))),
{
}

/// What git says of a directory is the repository and the checkout that it names, both in their one
/// spelling, or that there is none; and a git that would not say, or never did, is told in words.
pub proof fn law_directory_is_where_git_says(identity: RepoIdentity, error: String)
    ensures
        identified(Reply::Answered(Ok(Some(identity)))) == Ok::<_, Seq<char>>(
            Some(
                (
                    model::normal_path(identity.repo_key@),
                    model::normal_path(identity.checkout_path@),
                ),
            ),
        ),
        identified(Reply::Answered(Ok(None))) == Ok::<Option<(Seq<char>, Seq<char>)>, Seq<char>>(
            None,
        ),
        identified(Reply::Answered(Err(error))) == Err::<
            Option<(Seq<char>, Seq<char>)>,
            Seq<char>,
        >(text::one_line(error@)),
        identified(Reply::Lost) == Err::<Option<(Seq<char>, Seq<char>)>, Seq<char>>(
            "the thread asking git did not finish"@,
        ),
        walked(Reply::Lost) == Err::<Seq<GitRefView>, Seq<char>>(
            "the thread reading them did not finish"@,
        ),
{
}

/// A repository that herdr listed as another is told by the first checkout that was asked through
/// and the key that herdr gave for it.
pub proof fn law_listed_as_another_is_told(
    group: RepoProbes,
    answers: Seq<Result<WorktreeList, String>>,
)
    requires
        answers.len() == group.probes@.len(),
        answers.len() > 0,
        answers[0] is Ok,
    ensures
        probed(group, answers) matches ProbedView::NotListed(unlisted) ==> unlisted.words
            == "herdr listed "@ + group.probes@[0]@ + " as "@ + model::normal_path(
            answers[0]->Ok_0@.source.repo_key,
        ),
{
}

/// What comes of a repository follows from its listing: nothing while one is still to be asked for,
/// what it is read as where it was listed, and what is said of it where it was not.
pub proof fn law_outcome_follows_the_listing(
    group: RepoProbes,
    answers: Seq<Result<WorktreeList, String>>,
    slug: Result<Option<Seq<char>>, Seq<char>>,
)
    ensures
        match probed(group, answers) {
            ProbedView::Ask(_) => outcome_of(group, answers, slug) is None,
            ProbedView::Listed { at, .. } => outcome_of(group, answers, slug) == Some(
                Ok::<RepoInputView, UnlistedView>(
                    listed_repo(group.repo_key@, answers[at]->Ok_0@, slug),
                ),
            ),
            ProbedView::NotListed(unlisted) => outcome_of(group, answers, slug) == Some(
                Err::<RepoInputView, UnlistedView>(unlisted),
            ),
        },
{
}

/// The listed and the unlisted repositories are each in the order that they came to be known in,
/// and none is in both.
pub proof fn law_outcomes_are_parted_in_order(
    first: Seq<OutcomeView>,
    second: Seq<OutcomeView>,
    repo: RepoInputView,
    unlisted: UnlistedView,
)
    ensures
        listed_in(first + second) == listed_in(first) + listed_in(second),
        unlisted_in(first + second) == unlisted_in(first) + unlisted_in(second),
        listed_in(seq![Ok(repo)]) == seq![repo],
        listed_in(seq![Err(unlisted)]).len() == 0,
        unlisted_in(seq![Ok(repo)]).len() == 0,
        unlisted_in(seq![Err(unlisted)]) == seq![unlisted],
{
    lemma_parted_joined(first, second);
    let one: Seq<OutcomeView> = seq![Ok(repo)];
    let other: Seq<OutcomeView> = seq![Err(unlisted)];
    assert(one.drop_last() =~= seq![]);
    assert(other.drop_last() =~= seq![]);
    assert(listed_in(one.drop_last()) == Seq::<RepoInputView>::empty());
    assert(listed_in(other.drop_last()) == Seq::<RepoInputView>::empty());
    assert(unlisted_in(one.drop_last()) == Seq::<UnlistedView>::empty());
    assert(unlisted_in(other.drop_last()) == Seq::<UnlistedView>::empty());
    assert(one.last() == Ok::<RepoInputView, UnlistedView>(repo));
    assert(other.last() == Err::<RepoInputView, UnlistedView>(unlisted));
}

proof fn lemma_parted_joined(first: Seq<OutcomeView>, second: Seq<OutcomeView>)
    ensures
        listed_in(first + second) == listed_in(first) + listed_in(second),
        unlisted_in(first + second) == unlisted_in(first) + unlisted_in(second),
    decreases second.len(),
{
    let both = first + second;
    if second.len() == 0 {
        assert(both =~= first);
        assert(listed_in(first) + listed_in(second) =~= listed_in(first));
        assert(unlisted_in(first) + unlisted_in(second) =~= unlisted_in(first));
    } else {
        lemma_parted_joined(first, second.drop_last());
        assert(both.drop_last() =~= first + second.drop_last());
        assert(both.last() == second.last());
        assert(listed_in(both) =~= listed_in(first) + listed_in(second));
        assert(unlisted_in(both) =~= unlisted_in(first) + unlisted_in(second));
    }
}

/// Herdr is asked about a repository through exactly the checkouts that its panes are in, each once
/// and in ascending order.
pub proof fn law_repository_is_asked_through_its_panes(
    probes: Seq<Seq<char>>,
    panes: Seq<(Seq<char>, Seq<char>)>,
    i: int,
    j: int,
    k: int,
)
    requires
        probes_are(probes, panes),
        0 <= i < j < probes.len(),
        0 <= k < panes.len(),
    ensures
        text::before(probes[i], probes[j]),
        probes.contains(panes[k].1),
        exists|n: int| 0 <= n < panes.len() && (#[trigger] panes[n]).1 == probes[i],
{
    assert(panes[k].1 == panes[k].1);
    assert(probes.contains(probes[i]));
}

/// Every repository that a pane is in is among the groups and no other is; each has its own panes,
/// and is asked about through the checkouts that those are in.
pub proof fn law_groups_are_those_of_the_panes(
    groups: Seq<RepoProbes>,
    ids: Seq<Seq<char>>,
    places: tree::Places,
    g: int,
    id: Seq<char>,
)
    requires
        are_repositories(groups, ids, places),
        0 <= g < groups.len(),
        places.contains_key(id),
    ensures
        exists|h: int|
            0 <= h < groups.len() && (#[trigger] groups[h]).repo_key@ == places[id].repo_key@,
        has_pane_in(places, groups[g].repo_key@),
        shapes::pairs(groups[g].panes@) == panes_in(ids, places, groups[g].repo_key@),
        probes_are(text::texts(groups[g].probes@), shapes::pairs(groups[g].panes@)),
{
    let keys = group_keys(groups);
    assert(has_pane_in(places, places[id].repo_key@));
    assert(keys.contains(places[id].repo_key@));
    let h = choose|h: int| 0 <= h < keys.len() && keys[h] == places[id].repo_key@;
    assert(groups[h].repo_key@ == places[id].repo_key@);
    assert(keys.contains(keys[g]));
}

/// Nothing is left to ask herdr exactly where every group is listed, or was asked about in vain
/// through all of its checkouts.
pub proof fn law_all_are_asked_where_none_is_left(
    groups: Seq<RepoProbes>,
    answers: Seq<Seq<Result<WorktreeList, String>>>,
)
    requires
        groups.len() == answers.len(),
    ensures
        are_asked(groups, answers) <==> forall|i: int|
            0 <= i < groups.len() ==> (probed(#[trigger] groups[i], answers[i]) is Listed || probed(
                groups[i],
                answers[i],
            ) is NotListed),
{
    assert forall|i: int| 0 <= i < groups.len() implies (!(probed(
        #[trigger] groups[i],
        answers[i],
    ) is Ask) <==> probed(groups[i], answers[i]) is Listed || probed(
        groups[i],
        answers[i],
    ) is NotListed) by {}
}

} // verus!
