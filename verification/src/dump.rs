//! The page that says everything the picker read, and what it could not read.

use vstd::prelude::*;

use crate::collect;
use crate::collect::{refs_of_walk, Reply};
use crate::model;
use crate::model::{
    BranchView, PaneNode, PaneNodeView, Refs, RefsView, RepoNode, RepoNodeView, Tree, Unlisted,
    UnlistedView, WorktreeNode, WorktreeNodeView,
};
use crate::ordered::OrderedMap;
use crate::plugin_config::{Loaded, LoadedView};
use crate::port::{AgentStatus, GitRef, GitRefView, RefWalk, Snapshot, SnapshotView, Track};
use crate::shapes;
use crate::shapes::reversed;
use crate::text;
use crate::text::{decimal_text, folded, joined};
use crate::tree;
use crate::tree::refs_at;

verus! {

/// The refs of each repository, as they were read a second time for the page.
pub type RefsByRepo = OrderedMap<Result<Vec<GitRef>, String>>;

/// What git said of each working tree.
pub type WorkingTrees = OrderedMap<Result<bool, String>>;

/// What herdr's own looks are, in the words that the page says them with.
#[derive(Debug, Clone, PartialEq, Eq)]
pub struct Chrome {
    pub accent: String,
    pub indicators: String,
}

impl Default for Chrome {
    /// The looks of a herdr that nothing was configured for.
    fn default() -> (chrome: Chrome)
        ensures
            chrome.accent@ == "Named(Cyan)"@,
            chrome.indicators@ == "Dots"@,
    {
        Chrome { accent: "Named(Cyan)".to_owned(), indicators: "Dots".to_owned() }
    }
}

// ---------------------------------------------------------------- what is asked

/// The repositories whose refs were read, and are read again for the page.
pub open spec fn readable(repos: Seq<RepoNodeView>) -> Seq<Seq<char>>
    decreases repos.len(),
{
    if repos.len() == 0 {
        seq![]
    } else if repos.last().refs is Read {
        readable(repos.drop_last()).push(repos.last().repo_root)
    } else {
        readable(repos.drop_last())
    }
}

/// The repositories to read the refs of again. One that the tree could not read is not among them.
pub fn repos_to_read(tree: &Tree) -> (roots: Vec<String>)
    ensures
        text::texts(roots@) == readable(shapes::views(tree.repos@)),
{
    let ghost all = shapes::views(tree.repos@);
    let mut roots: Vec<String> = Vec::new();
    let mut i: usize = 0;
    while i < tree.repos.len()
        invariant
            i <= tree.repos@.len(),
            all == shapes::views(tree.repos@),
            text::texts(roots@) == readable(all.take(i as int)),
        decreases tree.repos@.len() - i,
    {
        assert(all.take(i + 1).drop_last() =~= all.take(i as int));
        assert(all.take(i + 1).last() == tree.repos@[i as int]@);
        let ghost before = text::texts(roots@);
        if tree.repos[i].refs.is_read() {
            roots.push(tree.repos[i].repo_root.clone());
            assert(text::texts(roots@) =~= before.push(tree.repos@[i as int].repo_root@));
        }
        i = i + 1;
    }
    assert(all.take(i as int) =~= all);
    roots
}

/// What each repository's refs are, as far as they were read.
pub open spec fn refs_map(m: Map<Seq<char>, Result<Vec<GitRef>, String>>) -> Map<
    Seq<char>,
    Result<Seq<GitRefView>, Seq<char>>,
> {
    m.map_values(|r: Result<Vec<GitRef>, String>| tree::refs_view(r))
}

/// The answers filed under the repositories they are about.
pub open spec fn refs_filed(roots: Seq<Seq<char>>, walks: Seq<Result<RefWalk, String>>) -> Map<
    Seq<char>,
    Result<Seq<GitRefView>, Seq<char>>,
>
    decreases roots.len(),
{
    if roots.len() == 0 || walks.len() == 0 {
        Map::empty()
    } else {
        refs_filed(roots.drop_last(), walks.drop_last()).insert(
            roots.last(),
            collect::walked(Reply::Answered(walks.last())),
        )
    }
}

/// Files the walks of the repositories `roots` under them.
pub fn read_refs(roots: &Vec<String>, walks: Vec<Result<RefWalk, String>>) -> (refs: RefsByRepo)
    requires
        roots@.len() == walks@.len(),
    ensures
        refs_map(refs@) == refs_filed(text::texts(roots@), walks@),
{
    let ghost all = walks@;
    let ghost names = text::texts(roots@);
    let mut back = reversed(walks);
    assert(back@.reverse() =~= all);
    assert(all.skip(0) =~= all);
    let mut refs: RefsByRepo = OrderedMap::new();
    assert(refs_map(refs@) =~= refs_filed(names.take(0), all.take(0)));
    let mut i: usize = 0;
    while i < roots.len()
        invariant
            i <= roots@.len(),
            all.len() == roots@.len(),
            names == text::texts(roots@),
            back@.reverse() == all.skip(i as int),
            refs_map(refs@) == refs_filed(names.take(i as int), all.take(i as int)),
        decreases roots@.len() - i,
    {
        let ghost left = back@;
        assert(left.reverse().len() == left.len());
        assert(names.take(i + 1).drop_last() =~= names.take(i as int));
        assert(all.take(i + 1).drop_last() =~= all.take(i as int));
        match back.pop() {
            Some(walk) => {
                assert(left.reverse()[0] == walk);
                assert(walk == all[i as int]);
                assert(back@.reverse() =~= left.reverse().skip(1));
                assert(all.skip(i as int).skip(1) =~= all.skip(i + 1));
                let read = refs_of_walk(Reply::Answered(walk));
                let ghost before = refs@;
                assert(refs_map(before.insert(names[i as int], read)) =~= refs_map(before).insert(
                    names[i as int],
                    tree::refs_view(read),
                ));
                refs.insert(roots[i].clone(), read);
            },
            None => {},
        }
        i = i + 1;
    }
    assert(names.take(i as int) =~= names);
    assert(all.take(i as int) =~= all);
    refs
}

/// What git said of each working tree.
pub open spec fn trees_map(m: Map<Seq<char>, Result<bool, String>>) -> Map<
    Seq<char>,
    Result<bool, Seq<char>>,
> {
    m.map_values(|r: Result<bool, String>| tree_answer(r))
}

/// What git said of a working tree.
pub open spec fn tree_answer(answer: Result<bool, String>) -> Result<bool, Seq<char>> {
    match answer {
        Ok(dirty) => Ok(dirty),
        Err(words) => Err(words@),
    }
}

/// The answers filed under the checkouts they are about, the words of a refusal on one line.
pub open spec fn trees_filed(paths: Seq<Seq<char>>, answers: Seq<Result<bool, String>>) -> Map<
    Seq<char>,
    Result<bool, Seq<char>>,
>
    decreases paths.len(),
{
    if paths.len() == 0 || answers.len() == 0 {
        Map::empty()
    } else {
        trees_filed(paths.drop_last(), answers.drop_last()).insert(
            paths.last(),
            match answers.last() {
                Ok(dirty) => Ok(dirty),
                Err(words) => Err(text::one_line(words@)),
            },
        )
    }
}

/// Files what git said of the checkouts `paths` under them.
pub fn read_working_trees(paths: &Vec<String>, answers: &Vec<Result<bool, String>>) -> (trees:
    WorkingTrees)
    requires
        paths@.len() == answers@.len(),
    ensures
        trees_map(trees@) == trees_filed(text::texts(paths@), answers@),
{
    let ghost names = text::texts(paths@);
    let mut trees: WorkingTrees = OrderedMap::new();
    assert(trees_map(trees@) =~= trees_filed(names.take(0), answers@.take(0)));
    let mut i: usize = 0;
    while i < paths.len()
        invariant
            i <= paths@.len(),
            paths@.len() == answers@.len(),
            names == text::texts(paths@),
            trees_map(trees@) == trees_filed(names.take(i as int), answers@.take(i as int)),
        decreases paths@.len() - i,
    {
        assert(names.take(i + 1).drop_last() =~= names.take(i as int));
        assert(answers@.take(i + 1).drop_last() =~= answers@.take(i as int));
        let answer = match &answers[i] {
            Ok(dirty) => Ok(*dirty),
            Err(words) => Err(folded(words.as_str())),
        };
        let ghost before = trees@;
        assert(trees_map(before.insert(names[i as int], answer)) =~= trees_map(before).insert(
            names[i as int],
            tree_answer(answer),
        ));
        trees.insert(paths[i].clone(), answer);
        i = i + 1;
    }
    assert(names.take(i as int) =~= names);
    assert(answers@.take(i as int) =~= answers@);
    trees
}

// ---------------------------------------------------------------- words

/// How a branch stands, in words.
pub open spec fn track_text(track: Track) -> Seq<char> {
    match track {
        Track::Gone => "gone"@,
        Track::Ahead(ahead) => "\u{2191}"@ + text::decimal(ahead as nat),
        Track::Behind(behind) => "\u{2193}"@ + text::decimal(behind as nat),
        Track::Diverged { ahead, behind } => "\u{2191}"@ + text::decimal(ahead as nat) + "\u{2193}"@
            + text::decimal(behind as nat),
        Track::Unreadable => "unreadable"@,
    }
}

/// How a branch stands, in words.
pub fn track_words(track: Track) -> (words: String)
    ensures
        words@ == track_text(track),
{
    match track {
        Track::Gone => "gone".to_owned(),
        Track::Ahead(ahead) => {
            let mut words = "\u{2191}".to_owned();
            words.append(decimal_text(ahead as u64).as_str());
            words
        },
        Track::Behind(behind) => {
            let mut words = "\u{2193}".to_owned();
            words.append(decimal_text(behind as u64).as_str());
            words
        },
        Track::Diverged { ahead, behind } => {
            let mut words = "\u{2191}".to_owned();
            words.append(decimal_text(ahead as u64).as_str());
            words.append("\u{2193}");
            words.append(decimal_text(behind as u64).as_str());
            words
        },
        Track::Unreadable => "unreadable".to_owned(),
    }
}

/// How a branch stands where its upstream is known: level where nothing else is said, and nothing
/// where it has none.
pub open spec fn standing_text(track: Option<Track>, upstream: Option<Seq<char>>) -> Seq<char> {
    match track {
        Some(track) => track_text(track),
        None => if upstream is Some {
            "level"@
        } else {
            "none"@
        },
    }
}

fn standing(track: Option<Track>, upstream: &Option<String>) -> (words: String)
    ensures
        words@ == standing_text(track, shapes::opt(*upstream)),
{
    match track {
        Some(track) => track_words(track),
        None => match upstream {
            Some(_) => "level".to_owned(),
            None => "none".to_owned(),
        },
    }
}

/// The name of an upstream.
pub open spec fn upstream_text(upstream: Option<Seq<char>>) -> Seq<char> {
    match upstream {
        Some(name) => name,
        None => "none"@,
    }
}

fn upstream_words(upstream: &Option<String>) -> (words: String)
    ensures
        words@ == upstream_text(shapes::opt(*upstream)),
{
    match upstream {
        Some(name) => name.clone(),
        None => "none".to_owned(),
    }
}

/// A ref, its upstream and how it stands.
pub open spec fn ref_text(found: GitRefView) -> Seq<char> {
    found.name + " \u{2192} "@ + upstream_text(found.upstream) + " "@ + standing_text(
        found.track,
        found.upstream,
    )
}

/// Several refs, each with its upstream and how it stands.
pub open spec fn each_text(named: Seq<GitRefView>) -> Seq<char> {
    text::join(Seq::new(named.len(), |i: int| ref_text(named[i])), ", "@)
}

fn each_of(named: &Vec<&GitRef>) -> (words: String)
    ensures
        words@ == each_text(shapes::views(named@)),
{
    let ghost all = shapes::views(named@);
    let ghost lines = Seq::new(all.len(), |i: int| ref_text(all[i]));
    let mut each: Vec<String> = Vec::new();
    let mut i: usize = 0;
    while i < named.len()
        invariant
            i <= named@.len(),
            all == shapes::views(named@),
            lines == Seq::new(all.len(), |i: int| ref_text(all[i])),
            text::texts(each@) == lines.take(i as int),
        decreases named@.len() - i,
    {
        let found = named[i];
        let mut words = found.name.clone();
        words.append(" \u{2192} ");
        words.append(upstream_words(&found.upstream).as_str());
        words.append(" ");
        words.append(standing(found.track, &found.upstream).as_str());
        let ghost before = text::texts(each@);
        assert(words@ =~= ref_text(all[i as int]));
        each.push(words);
        assert(text::texts(each@) =~= before.push(lines[i as int]));
        assert(lines.take(i + 1) =~= before.push(lines[i as int]));
        i = i + 1;
    }
    assert(lines.take(i as int) =~= lines);
    joined(&each, ", ")
}

/// What is known of the refs of a repository for the page.
#[verifier::ext_equal]
pub enum RefsReadView {
    /// The tree could not read them.
    NotRead,
    /// The tree read them, and the page could not.
    NotReadAgain,
    Read(Seq<GitRefView>),
}

/// What is known of the refs of a repository for the page.
pub open spec fn refs_read(repo: RepoNodeView, refs: Map<Seq<char>, Result<Vec<GitRef>, String>>) -> RefsReadView {
    match repo.refs {
        RefsView::Unreadable(_) => RefsReadView::NotRead,
        RefsView::Read => if refs.contains_key(repo.repo_root) {
            match tree::refs_view(refs[repo.repo_root]) {
                Ok(list) => RefsReadView::Read(list),
                Err(_) => RefsReadView::NotReadAgain,
            }
        } else {
            RefsReadView::NotReadAgain
        },
    }
}

/// What is known of the refs of a repository for the page.
pub enum RefsRead<'a> {
    NotRead,
    NotReadAgain,
    Read(&'a Vec<GitRef>),
}

impl<'a> View for RefsRead<'a> {
    type V = RefsReadView;

    open spec fn view(&self) -> RefsReadView {
        match self {
            RefsRead::NotRead => RefsReadView::NotRead,
            RefsRead::NotReadAgain => RefsReadView::NotReadAgain,
            RefsRead::Read(list) => RefsReadView::Read(shapes::views(list@)),
        }
    }
}

impl<'a> RefsRead<'a> {
    /// What is known of the refs of `repo`.
    pub fn of(repo: &RepoNode, refs: &'a RefsByRepo) -> (read: RefsRead<'a>)
        ensures
            read@ == refs_read(repo@, refs@),
    {
        match &repo.refs {
            Refs::Unreadable(_) => RefsRead::NotRead,
            Refs::Read => match refs.get(repo.repo_root.as_str()) {
                Some(Ok(list)) => RefsRead::Read(list),
                Some(Err(_)) => RefsRead::NotReadAgain,
                None => RefsRead::NotReadAgain,
            },
        }
    }
}

/// What the picker draws of how a checkout's branch stands.
pub open spec fn drawn_track(track: Option<Track>) -> Seq<char> {
    match track {
        Some(track) => track_text(track),
        None => "not known"@,
    }
}

fn drawn(track: Option<Track>) -> (words: String)
    ensures
        words@ == drawn_track(track),
{
    match track {
        Some(track) => track_words(track),
        None => "not known".to_owned(),
    }
}

/// What the page says of the branch of a checkout.
pub open spec fn branch_text(worktree: WorktreeNodeView, read: RefsReadView) -> Seq<char> {
    match worktree.branch {
        BranchView::Out(branch) => match read {
            RefsReadView::NotRead => "upstream not read  track not read"@,
            RefsReadView::NotReadAgain => "upstream not read  track "@ + drawn_track(worktree.track),
            RefsReadView::Read(list) => {
                let named = tree::refs_out_at(list, worktree.checkout_path);
                if named.len() == 0 {
                    "no ref at this checkout for "@ + branch + "  track "@ + drawn_track(
                        worktree.track,
                    )
                } else if named.len() == 1 {
                    "upstream "@ + upstream_text(named[0].upstream) + "  track "@ + standing_text(
                        worktree.track,
                        named[0].upstream,
                    )
                } else {
                    "more than one ref at this checkout: "@ + each_text(named) + "  track "@
                        + drawn_track(worktree.track)
                }
            },
        },
        _ => detached_text(worktree, read),
    }
}

/// What the page says of a checkout that no branch is known of.
pub open spec fn detached_text(worktree: WorktreeNodeView, read: RefsReadView) -> Seq<char> {
    let first = if worktree.branch is NotSaid {
        "herdr did not list this checkout"@
    } else {
        "no branch reported"@
    };
    let second = match read {
        RefsReadView::NotRead => "  refs not read"@,
        RefsReadView::NotReadAgain => "  refs not read on the second read"@,
        RefsReadView::Read(list) => {
            let named = tree::refs_out_at(list, worktree.checkout_path);
            if named.len() > 0 {
                "  git names at this path: "@ + each_text(named)
            } else if worktree.track is Some {
                "  no ref at this checkout"@
            } else {
                seq![]
            }
        },
    };
    let third = match worktree.track {
        Some(track) => "  track "@ + track_text(track),
        None => seq![],
    };
    first + second + third
}

fn detached_words(worktree: &WorktreeNode, read: &RefsRead<'_>) -> (out: String)
    ensures
        out@ == detached_text(worktree@, read@),
{
    let mut out = match &worktree.branch {
        model::Branch::NothingOut => "no branch reported".to_owned(),
        model::Branch::Out(_) => "no branch reported".to_owned(),
        model::Branch::NotSaid => "herdr did not list this checkout".to_owned(),
    };
    match read {
        RefsRead::NotRead => {
            out.append("  refs not read");
        },
        RefsRead::NotReadAgain => {
            out.append("  refs not read on the second read");
        },
        RefsRead::Read(list) => {
            let named = refs_at(list, worktree.checkout_path.as_str());
            assert(shapes::views(named@).len() == named@.len());
            if named.len() > 0 {
                out.append("  git names at this path: ");
                out.append(each_of(&named).as_str());
            } else if worktree.track.is_some() {
                out.append("  no ref at this checkout");
            }
        },
    }
    match worktree.track {
        Some(track) => {
            out.append("  track ");
            out.append(track_words(track).as_str());
        },
        None => {},
    }
    assert(out@ =~= detached_text(worktree@, read@));
    out
}

fn branch_words(worktree: &WorktreeNode, read: &RefsRead<'_>) -> (out: String)
    ensures
        out@ == branch_text(worktree@, read@),
{
    let branch = match worktree.branch.name() {
        Some(branch) => branch,
        None => {
            return detached_words(worktree, read);
        },
    };
    match read {
        RefsRead::NotRead => "upstream not read  track not read".to_owned(),
        RefsRead::NotReadAgain => {
            let mut out = "upstream not read  track ".to_owned();
            out.append(drawn(worktree.track).as_str());
            out
        },
        RefsRead::Read(list) => {
            let named = refs_at(list, worktree.checkout_path.as_str());
            assert(shapes::views(named@).len() == named@.len());
            if named.len() == 0 {
                let mut out = "no ref at this checkout for ".to_owned();
                out.append(branch);
                out.append("  track ");
                out.append(drawn(worktree.track).as_str());
                out
            } else if named.len() == 1 {
                assert(shapes::views(named@)[0] == named@[0]@);
                let mut out = "upstream ".to_owned();
                out.append(upstream_words(&named[0].upstream).as_str());
                out.append("  track ");
                out.append(standing(worktree.track, &named[0].upstream).as_str());
                out
            } else {
                let mut out = "more than one ref at this checkout: ".to_owned();
                out.append(each_of(&named).as_str());
                out.append("  track ");
                out.append(drawn(worktree.track).as_str());
                out
            }
        },
    }
}

/// What the page says of a working tree.
pub open spec fn working_tree_text(answer: Option<Result<bool, Seq<char>>>) -> Seq<char> {
    match answer {
        Some(Ok(dirty)) => if dirty {
            "working tree dirty"@
        } else {
            "working tree clean"@
        },
        Some(Err(words)) => "working tree unreadable: "@ + words,
        None => "working tree not asked"@,
    }
}

/// What git said of a checkout, if it was asked.
pub open spec fn said_of(trees: Map<Seq<char>, Result<bool, String>>, path: Seq<char>) -> Option<
    Result<bool, Seq<char>>,
> {
    if trees.contains_key(path) {
        Some(tree_answer(trees[path]))
    } else {
        None
    }
}

fn working_tree_words(trees: &WorkingTrees, path: &str) -> (words: String)
    ensures
        words@ == working_tree_text(said_of(trees@, path@)),
{
    match trees.get(path) {
        Some(Ok(dirty)) => if *dirty {
            "working tree dirty".to_owned()
        } else {
            "working tree clean".to_owned()
        },
        Some(Err(why)) => {
            let mut words = "working tree unreadable: ".to_owned();
            words.append(why.as_str());
            words
        },
        None => "working tree not asked".to_owned(),
    }
}

// ---------------------------------------------------------------- the page

/// What an agent is doing, in the word that the page says it with.
pub open spec fn status_text(status: AgentStatus) -> Seq<char> {
    match status {
        AgentStatus::Idle => "Idle"@,
        AgentStatus::Working => "Working"@,
        AgentStatus::Blocked => "Blocked"@,
        AgentStatus::Done => "Done"@,
        AgentStatus::Unknown => "Unknown"@,
    }
}

fn status_word(status: AgentStatus) -> (word: &'static str)
    ensures
        word@ == status_text(status),
{
    match status {
        AgentStatus::Idle => "Idle",
        AgentStatus::Working => "Working",
        AgentStatus::Blocked => "Blocked",
        AgentStatus::Done => "Done",
        AgentStatus::Unknown => "Unknown",
    }
}

/// The lines of the panes in a checkout.
pub open spec fn panes_text(panes: Seq<PaneNodeView>) -> Seq<char>
    decreases panes.len(),
{
    if panes.len() == 0 {
        seq![]
    } else {
        let pane = panes.last();
        panes_text(panes.drop_last()) + "      "@ + pane.pane_id + "  "@ + status_text(
            pane.agent_status,
        ) + "  "@ + match pane.display_name {
            Some(name) => name,
            None => seq![],
        } + "\n"@
    }
}

fn write_panes(out: &mut String, panes: &Vec<PaneNode>)
    ensures
        final(out)@ == old(out)@ + panes_text(shapes::views(panes@)),
{
    let ghost all = shapes::views(panes@);
    let ghost start = out@;
    let mut i: usize = 0;
    assert(start + panes_text(all.take(0)) =~= start);
    while i < panes.len()
        invariant
            i <= panes@.len(),
            all == shapes::views(panes@),
            out@ == start + panes_text(all.take(i as int)),
        decreases panes@.len() - i,
    {
        assert(all.take(i + 1).drop_last() =~= all.take(i as int));
        let pane = &panes[i];
        assert(all.take(i + 1).last() == pane@);
        out.append("      ");
        out.append(pane.pane_id.as_str());
        out.append("  ");
        out.append(status_word(pane.agent_status));
        out.append("  ");
        match &pane.display_name {
            Some(name) => {
                out.append(name.as_str());
            },
            None => {},
        }
        out.append("\n");
        assert(out@ =~= start + panes_text(all.take(i + 1)));
        i = i + 1;
    }
    assert(all.take(i as int) =~= all);
}

/// How a checkout is marked: the repository's own, or another.
pub open spec fn mark_text(worktree: WorktreeNodeView) -> Seq<char> {
    if worktree.is_primary {
        "*"@
    } else {
        "-"@
    }
}

/// Where a checkout is open.
pub open spec fn open_text(worktree: WorktreeNodeView) -> Seq<char> {
    match worktree.open_workspace_id {
        Some(id) => " open in "@ + id,
        None => ""@,
    }
}

/// The line that says what a checkout is.
pub open spec fn heading_text(worktree: WorktreeNodeView) -> Seq<char> {
    "  "@ + mark_text(worktree) + " "@ + model::label_of(worktree) + open_text(worktree) + "  "@
        + worktree.checkout_path + "\n"@
}

/// The line that says what git knows of a checkout.
pub open spec fn state_text(
    worktree: WorktreeNodeView,
    read: RefsReadView,
    trees: Map<Seq<char>, Result<bool, String>>,
) -> Seq<char> {
    "      "@ + branch_text(worktree, read) + "  "@ + working_tree_text(
        said_of(trees, worktree.checkout_path),
    ) + "\n"@
}

/// The lines of a checkout: what it is, what git says of it, and its panes.
pub open spec fn worktree_text(
    worktree: WorktreeNodeView,
    read: RefsReadView,
    trees: Map<Seq<char>, Result<bool, String>>,
) -> Seq<char> {
    heading_text(worktree) + state_text(worktree, read, trees) + panes_text(worktree.panes)
}

fn open_words(worktree: &WorktreeNode) -> (words: String)
    ensures
        words@ == open_text(worktree@),
{
    match &worktree.open_workspace_id {
        Some(id) => {
            let mut words = " open in ".to_owned();
            words.append(id.as_str());
            words
        },
        None => "".to_owned(),
    }
}

fn heading(worktree: &WorktreeNode) -> (line: String)
    ensures
        line@ == heading_text(worktree@),
{
    let mark = if worktree.is_primary {
        "*"
    } else {
        "-"
    };
    let mut line = "  ".to_owned();
    line.append(mark);
    line.append(" ");
    line.append(worktree.label().as_str());
    line.append(open_words(worktree).as_str());
    line.append("  ");
    line.append(worktree.checkout_path.as_str());
    line.append("\n");
    line
}

fn state_line(worktree: &WorktreeNode, read: &RefsRead<'_>, trees: &WorkingTrees) -> (line: String)
    ensures
        line@ == state_text(worktree@, read@, trees@),
{
    let mut line = "      ".to_owned();
    line.append(branch_words(worktree, read).as_str());
    line.append("  ");
    line.append(working_tree_words(trees, worktree.checkout_path.as_str()).as_str());
    line.append("\n");
    line
}

fn write_worktree(
    out: &mut String,
    worktree: &WorktreeNode,
    read: &RefsRead<'_>,
    trees: &WorkingTrees,
)
    ensures
        final(out)@ == old(out)@ + worktree_text(worktree@, read@, trees@),
{
    let ghost start = out@;
    let first = heading(worktree);
    let second = state_line(worktree, read, trees);
    out.append(first.as_str());
    out.append(second.as_str());
    write_panes(out, &worktree.panes);
    assert(out@ =~= start + (first@ + second@ + panes_text(worktree@.panes)));
}

/// The lines of the checkouts of a repository.
pub open spec fn worktrees_text(
    worktrees: Seq<WorktreeNodeView>,
    read: RefsReadView,
    trees: Map<Seq<char>, Result<bool, String>>,
) -> Seq<char>
    decreases worktrees.len(),
{
    if worktrees.len() == 0 {
        seq![]
    } else {
        worktrees_text(worktrees.drop_last(), read, trees) + worktree_text(
            worktrees.last(),
            read,
            trees,
        )
    }
}

/// What is said of refs that could not be read.
pub open spec fn refs_line(
    repo: RepoNodeView,
    refs: Map<Seq<char>, Result<Vec<GitRef>, String>>,
) -> Seq<char> {
    match repo.refs {
        RefsView::Unreadable(words) => "  refs unreadable: "@ + words + "\n"@,
        RefsView::Read => if refs.contains_key(repo.repo_root) {
            match tree::refs_view(refs[repo.repo_root]) {
                Err(words) => "  refs unreadable on the second read: "@ + words + "\n"@,
                Ok(_) => ""@,
            }
        } else {
            ""@
        },
    }
}

/// The lines that head a repository.
pub open spec fn repo_heading_text(
    repo: RepoNodeView,
    refs: Map<Seq<char>, Result<Vec<GitRef>, String>>,
) -> Seq<char> {
    "\n"@ + repo.display_name + "  ["@ + repo.repo_root + "]\n"@ + refs_line(repo, refs)
}

/// The lines of a repository.
pub open spec fn repo_text(
    repo: RepoNodeView,
    refs: Map<Seq<char>, Result<Vec<GitRef>, String>>,
    trees: Map<Seq<char>, Result<bool, String>>,
) -> Seq<char> {
    repo_heading_text(repo, refs) + worktrees_text(repo.worktrees, refs_read(repo, refs), trees)
}

fn refs_words(repo: &RepoNode, refs: &RefsByRepo) -> (line: String)
    ensures
        line@ == refs_line(repo@, refs@),
{
    match &repo.refs {
        Refs::Unreadable(words) => {
            let mut line = "  refs unreadable: ".to_owned();
            line.append(words.as_str());
            line.append("\n");
            line
        },
        Refs::Read => match refs.get(repo.repo_root.as_str()) {
            Some(Err(words)) => {
                let mut line = "  refs unreadable on the second read: ".to_owned();
                line.append(words.as_str());
                line.append("\n");
                line
            },
            _ => "".to_owned(),
        },
    }
}

fn repo_heading(repo: &RepoNode, refs: &RefsByRepo) -> (lines: String)
    ensures
        lines@ == repo_heading_text(repo@, refs@),
{
    let mut lines = "\n".to_owned();
    lines.append(repo.display_name.as_str());
    lines.append("  [");
    lines.append(repo.repo_root.as_str());
    lines.append("]\n");
    lines.append(refs_words(repo, refs).as_str());
    lines
}

fn write_repo(out: &mut String, repo: &RepoNode, refs: &RefsByRepo, trees: &WorkingTrees)
    ensures
        final(out)@ == old(out)@ + repo_text(repo@, refs@, trees@),
{
    let ghost begin = out@;
    out.append(repo_heading(repo, refs).as_str());
    let read = RefsRead::of(repo, refs);
    let ghost all = shapes::views(repo.worktrees@);
    let ghost start = out@;
    let mut i: usize = 0;
    assert(start + worktrees_text(all.take(0), read@, trees@) =~= start);
    while i < repo.worktrees.len()
        invariant
            i <= repo.worktrees@.len(),
            all == shapes::views(repo.worktrees@),
            out@ == start + worktrees_text(all.take(i as int), read@, trees@),
        decreases repo.worktrees@.len() - i,
    {
        assert(all.take(i + 1).drop_last() =~= all.take(i as int));
        assert(all.take(i + 1).last() == repo.worktrees@[i as int]@);
        write_worktree(out, &repo.worktrees[i], &read, trees);
        assert(out@ =~= start + worktrees_text(all.take(i + 1), read@, trees@));
        i = i + 1;
    }
    assert(all.take(i as int) =~= all);
    assert(out@ =~= begin + repo_text(repo@, refs@, trees@));
}

/// The lines of the repositories.
pub open spec fn repos_text(
    repos: Seq<RepoNodeView>,
    refs: Map<Seq<char>, Result<Vec<GitRef>, String>>,
    trees: Map<Seq<char>, Result<bool, String>>,
) -> Seq<char>
    decreases repos.len(),
{
    if repos.len() == 0 {
        seq![]
    } else {
        repos_text(repos.drop_last(), refs, trees) + repo_text(repos.last(), refs, trees)
    }
}

/// The lines of the repositories that herdr would not list.
pub open spec fn unlisted_lines(unlisted: Seq<UnlistedView>) -> Seq<char>
    decreases unlisted.len(),
{
    if unlisted.len() == 0 {
        seq![]
    } else {
        let repo = unlisted.last();
        unlisted_lines(unlisted.drop_last()) + "  "@ + model::path_name(
            model::key_directory(repo.repo_key),
        ) + "  ["@ + repo.repo_key + "]\n"@ + "      "@ + repo.words + "\n"@
    }
}

/// The section of the repositories that herdr would not list.
pub open spec fn unlisted_text(unlisted: Seq<UnlistedView>) -> Seq<char> {
    if unlisted.len() == 0 {
        seq![]
    } else {
        "\nnot listed:\n"@ + unlisted_lines(unlisted)
    }
}

fn write_unlisted(out: &mut String, unlisted: &Vec<Unlisted>)
    ensures
        final(out)@ == old(out)@ + unlisted_text(shapes::views(unlisted@)),
{
    let ghost all = shapes::views(unlisted@);
    let ghost begin = out@;
    assert(all.len() == unlisted@.len());
    if unlisted.len() == 0 {
        assert(begin + unlisted_text(all) =~= begin);
        return;
    }
    out.append("\nnot listed:\n");
    let ghost start = out@;
    let mut i: usize = 0;
    assert(start + unlisted_lines(all.take(0)) =~= start);
    while i < unlisted.len()
        invariant
            i <= unlisted@.len(),
            all == shapes::views(unlisted@),
            out@ == start + unlisted_lines(all.take(i as int)),
        decreases unlisted@.len() - i,
    {
        assert(all.take(i + 1).drop_last() =~= all.take(i as int));
        let repo = &unlisted[i];
        assert(all.take(i + 1).last() == repo@);
        out.append("  ");
        out.append(repo.name().as_str());
        out.append("  [");
        out.append(repo.repo_key.as_str());
        out.append("]\n");
        out.append("      ");
        out.append(repo.words.as_str());
        out.append("\n");
        assert(out@ =~= start + unlisted_lines(all.take(i + 1)));
        i = i + 1;
    }
    assert(all.take(i as int) =~= all);
    assert(out@ =~= begin + unlisted_text(all));
}

/// Why a pane has no place, where git would not say.
pub open spec fn unplaced_line(unplaced: Map<Seq<char>, String>, pane_id: Seq<char>) -> Seq<char> {
    if unplaced.contains_key(pane_id) {
        "          "@ + unplaced[pane_id]@ + "\n"@
    } else {
        seq![]
    }
}

/// The lines of the panes that are in no repository.
pub open spec fn ungrouped_lines(panes: Seq<PaneNodeView>, unplaced: Map<Seq<char>, String>) -> Seq<
    char,
>
    decreases panes.len(),
{
    if panes.len() == 0 {
        seq![]
    } else {
        ungrouped_lines(panes.drop_last(), unplaced) + "      "@ + panes.last().pane_id + "\n"@
            + unplaced_line(unplaced, panes.last().pane_id)
    }
}

/// The section of the panes that are in no repository.
pub open spec fn ungrouped_text(panes: Seq<PaneNodeView>, unplaced: Map<Seq<char>, String>) -> Seq<
    char,
> {
    if panes.len() == 0 {
        seq![]
    } else {
        "\nnot in any repository:\n"@ + ungrouped_lines(panes, unplaced)
    }
}

fn write_ungrouped(out: &mut String, panes: &Vec<PaneNode>, unplaced: &OrderedMap<String>)
    ensures
        final(out)@ == old(out)@ + ungrouped_text(shapes::views(panes@), unplaced@),
{
    let ghost all = shapes::views(panes@);
    let ghost begin = out@;
    assert(all.len() == panes@.len());
    if panes.len() == 0 {
        assert(begin + ungrouped_text(all, unplaced@) =~= begin);
        return;
    }
    out.append("\nnot in any repository:\n");
    let ghost start = out@;
    let mut i: usize = 0;
    assert(start + ungrouped_lines(all.take(0), unplaced@) =~= start);
    while i < panes.len()
        invariant
            i <= panes@.len(),
            all == shapes::views(panes@),
            out@ == start + ungrouped_lines(all.take(i as int), unplaced@),
        decreases panes@.len() - i,
    {
        assert(all.take(i + 1).drop_last() =~= all.take(i as int));
        let pane = &panes[i];
        assert(all.take(i + 1).last() == pane@);
        out.append("      ");
        out.append(pane.pane_id.as_str());
        out.append("\n");
        match unplaced.get(pane.pane_id.as_str()) {
            Some(words) => {
                out.append("          ");
                out.append(words.as_str());
                out.append("\n");
            },
            None => {},
        }
        assert(out@ =~= start + ungrouped_lines(all.take(i + 1), unplaced@));
        i = i + 1;
    }
    assert(all.take(i as int) =~= all);
    assert(out@ =~= begin + ungrouped_text(all, unplaced@));
}

/// The lines that say what is running.
pub open spec fn running_text(snapshot: SnapshotView, chrome: Chrome) -> Seq<char> {
    "herdr "@ + snapshot.version + " (protocol "@ + text::decimal(snapshot.protocol as nat) + ")\n"@
        + "chrome: accent "@ + chrome.accent@ + ", indicators "@ + chrome.indicators@ + "\n"@
}

/// The line that says which file the settings are from.
pub open spec fn file_text(config: LoadedView) -> Seq<char> {
    match config.path {
        Some(path) => "plugin config: "@ + path + "\n"@,
        None => "plugin config: missing, defaults\n"@,
    }
}

/// The line that says what is wrong with that file.
pub open spec fn problem_text(config: LoadedView) -> Seq<char> {
    match config.complaint {
        Some(complaint) => "plugin config problem: "@ + complaint + "\n"@,
        None => ""@,
    }
}

/// The line that says what is set.
pub open spec fn setting_text(config: LoadedView) -> Seq<char> {
    "[panes].show_worktrees_without_panes: "@
        + if config.settings.panes.show_worktrees_without_panes {
        "true"@
    } else {
        "false"@
    } + "\n"@
}

/// The line that says how much there is.
pub open spec fn count_text(panes: nat, repos: nat) -> Seq<char> {
    text::decimal(panes) + " panes in "@ + text::decimal(repos) + " repos\n"@
}

/// The lines at the top of the page: what is running, what it is configured with, and how much of
/// it there is.
pub open spec fn header_text(
    snapshot: SnapshotView,
    chrome: Chrome,
    config: LoadedView,
    repos: nat,
) -> Seq<char> {
    running_text(snapshot, chrome) + file_text(config) + problem_text(config) + setting_text(config)
        + count_text(snapshot.panes.len(), repos)
}

fn running(snapshot: &Snapshot, chrome: &Chrome) -> (lines: String)
    ensures
        lines@ == running_text(snapshot@, *chrome),
{
    let mut lines = "herdr ".to_owned();
    lines.append(snapshot.version.as_str());
    lines.append(" (protocol ");
    lines.append(decimal_text(snapshot.protocol as u64).as_str());
    lines.append(")\n");
    lines.append("chrome: accent ");
    lines.append(chrome.accent.as_str());
    lines.append(", indicators ");
    lines.append(chrome.indicators.as_str());
    lines.append("\n");
    lines
}

fn file_words(config: &Loaded) -> (line: String)
    ensures
        line@ == file_text(config@),
{
    match &config.path {
        Some(path) => {
            let mut line = "plugin config: ".to_owned();
            line.append(path.as_str());
            line.append("\n");
            line
        },
        None => "plugin config: missing, defaults\n".to_owned(),
    }
}

fn problem_words(config: &Loaded) -> (line: String)
    ensures
        line@ == problem_text(config@),
{
    match &config.complaint {
        Some(complaint) => {
            let mut line = "plugin config problem: ".to_owned();
            line.append(complaint.as_str());
            line.append("\n");
            line
        },
        None => "".to_owned(),
    }
}

fn setting_words(config: &Loaded) -> (line: String)
    ensures
        line@ == setting_text(config@),
{
    let set = if config.settings.panes.show_worktrees_without_panes {
        "true"
    } else {
        "false"
    };
    let mut line = "[panes].show_worktrees_without_panes: ".to_owned();
    line.append(set);
    line.append("\n");
    line
}

fn count_words(panes: usize, repos: usize) -> (line: String)
    ensures
        line@ == count_text(panes as nat, repos as nat),
{
    let mut line = decimal_text(panes as u64);
    line.append(" panes in ");
    line.append(decimal_text(repos as u64).as_str());
    line.append(" repos\n");
    line
}

fn header(snapshot: &Snapshot, chrome: &Chrome, config: &Loaded, repos: usize) -> (out: String)
    ensures
        out@ == header_text(snapshot@, *chrome, config@, repos as nat),
{
    let mut out = running(snapshot, chrome);
    out.append(file_words(config).as_str());
    out.append(problem_words(config).as_str());
    out.append(setting_words(config).as_str());
    out.append(count_words(snapshot.panes.len(), repos).as_str());
    out
}

/// The page: its head, the repositories, those that herdr would not list, and the panes that are
/// in none.
pub fn report(
    snapshot: &Snapshot,
    chrome: &Chrome,
    plugin_config: &Loaded,
    tree: &Tree,
    refs: &RefsByRepo,
    working_trees: &WorkingTrees,
) -> (page: String)
    ensures
        page@ == header_text(snapshot@, *chrome, plugin_config@, tree.repos@.len()) + repos_text(
            shapes::views(tree.repos@),
            refs@,
            working_trees@,
        ) + unlisted_text(shapes::views(tree.trouble.unlisted@)) + ungrouped_text(
            shapes::views(tree.ungrouped@),
            tree.trouble.unplaced@,
        ),
{
    let mut page = header(snapshot, chrome, plugin_config, tree.repos.len());
    let ghost start = page@;
    let ghost all = shapes::views(tree.repos@);
    let mut i: usize = 0;
    assert(start + repos_text(all.take(0), refs@, working_trees@) =~= start);
    while i < tree.repos.len()
        invariant
            i <= tree.repos@.len(),
            all == shapes::views(tree.repos@),
            page@ == start + repos_text(all.take(i as int), refs@, working_trees@),
        decreases tree.repos@.len() - i,
    {
        assert(all.take(i + 1).drop_last() =~= all.take(i as int));
        assert(all.take(i + 1).last() == tree.repos@[i as int]@);
        write_repo(&mut page, &tree.repos[i], refs, working_trees);
        assert(page@ =~= start + repos_text(all.take(i + 1), refs@, working_trees@));
        i = i + 1;
    }
    assert(all.take(i as int) =~= all);
    write_unlisted(&mut page, &tree.trouble.unlisted);
    write_ungrouped(&mut page, &tree.ungrouped, &tree.trouble.unplaced);
    page
}

// ---------------------------------------------------------------- laws

/// How a branch stands is written with an arrow up before how far it is ahead, an arrow down before
/// how far it is behind, and both where it is both.
pub proof fn law_standing_is_written_with_arrows(ahead: u32, behind: u32, name: Seq<char>)
    ensures
        track_text(Track::Ahead(ahead)) == seq!['\u{2191}'] + text::decimal(ahead as nat),
        track_text(Track::Behind(behind)) == seq!['\u{2193}'] + text::decimal(behind as nat),
        track_text(Track::Diverged { ahead, behind }) == track_text(Track::Ahead(ahead))
            + track_text(Track::Behind(behind)),
        track_text(Track::Gone) == "gone"@,
        track_text(Track::Unreadable) == "unreadable"@,
        standing_text(None, Some(name)) == "level"@,
        standing_text(None, None) == "none"@,
        forall|track: Track, upstream: Option<Seq<char>>| #[trigger]
            standing_text(Some(track), upstream) == track_text(track),
        drawn_track(None) == "not known"@,
        forall|track: Track| #[trigger] drawn_track(Some(track)) == track_text(track),
        upstream_text(Some(name)) == name,
        upstream_text(None) == "none"@,
{
    reveal_strlit("\u{2191}");
    reveal_strlit("\u{2193}");
    assert("\u{2191}"@ =~= seq!['\u{2191}']);
    assert("\u{2193}"@ =~= seq!['\u{2193}']);
    assert(track_text(Track::Diverged { ahead, behind }) =~= track_text(Track::Ahead(ahead))
        + track_text(Track::Behind(behind)));
}

/// What is said of a branch that is out rests on the refs that git has at its checkout: on the one
/// where there is one, on none where there is none, and on no single one where there are more.
pub proof fn law_branch_is_told_by_the_ref_at_its_checkout(
    worktree: WorktreeNodeView,
    branch: Seq<char>,
    list: Seq<GitRefView>,
    found: GitRefView,
)
    requires
        worktree.branch == BranchView::Out(branch),
    ensures
        branch_text(worktree, RefsReadView::NotRead) == "upstream not read  track not read"@,
        branch_text(worktree, RefsReadView::NotReadAgain) == "upstream not read  track "@
            + drawn_track(worktree.track),
        tree::refs_out_at(list, worktree.checkout_path).len() == 0 ==> branch_text(
            worktree,
            RefsReadView::Read(list),
        ) == "no ref at this checkout for "@ + branch + "  track "@ + drawn_track(worktree.track),
        tree::refs_out_at(list, worktree.checkout_path) == seq![found] ==> branch_text(
            worktree,
            RefsReadView::Read(list),
        ) == "upstream "@ + upstream_text(found.upstream) + "  track "@ + standing_text(
            worktree.track,
            found.upstream,
        ),
        tree::refs_out_at(list, worktree.checkout_path).len() > 1 ==> branch_text(
            worktree,
            RefsReadView::Read(list),
        ) == "more than one ref at this checkout: "@ + each_text(
            tree::refs_out_at(list, worktree.checkout_path),
        ) + "  track "@ + drawn_track(worktree.track),
{
}

/// What is said of a checkout that no branch is known of: whether herdr listed it, what git has
/// there, and how it stands where that is known. It is said of no other checkout.
pub proof fn law_checkout_without_branch_is_told_as_such(
    worktree: WorktreeNodeView,
    read: RefsReadView,
    list: Seq<GitRefView>,
)
    requires
        !(worktree.branch is Out),
    ensures
        branch_text(worktree, read) == detached_text(worktree, read),
        ({
            let first = if worktree.branch is NotSaid {
                "herdr did not list this checkout"@
            } else {
                "no branch reported"@
            };
            let named = tree::refs_out_at(list, worktree.checkout_path);
            &&& worktree.track is None ==> detached_text(worktree, RefsReadView::NotRead) == first
                + "  refs not read"@
            &&& worktree.track is None ==> detached_text(worktree, RefsReadView::NotReadAgain)
                == first + "  refs not read on the second read"@
            &&& worktree.track is None && named.len() == 0 ==> detached_text(
                worktree,
                RefsReadView::Read(list),
            ) == first
            &&& worktree.track is None && named.len() > 0 ==> detached_text(
                worktree,
                RefsReadView::Read(list),
            ) == first + "  git names at this path: "@ + each_text(named)
            &&& worktree.track is Some && named.len() == 0 ==> detached_text(
                worktree,
                RefsReadView::Read(list),
            ) == first + "  no ref at this checkout"@ + "  track "@ + track_text(
                worktree.track->Some_0,
            )
            &&& worktree.track is Some && named.len() > 0 ==> detached_text(
                worktree,
                RefsReadView::Read(list),
            ) == first + "  git names at this path: "@ + each_text(named) + "  track "@
                + track_text(worktree.track->Some_0)
        }),
{
    let empty = Seq::<char>::empty();
    assert forall|s: Seq<char>| #[trigger] (s + empty) == s by {
        assert(s + empty =~= s);
    }
    let named = tree::refs_out_at(list, worktree.checkout_path);
    match worktree.track {
        Some(track) => {
            let first = if worktree.branch is NotSaid {
                "herdr did not list this checkout"@
            } else {
                "no branch reported"@
            };
            let third = "  track "@ + track_text(track);
            assert(first + "  no ref at this checkout"@ + third =~= first
                + "  no ref at this checkout"@ + "  track "@ + track_text(track));
            let second = "  git names at this path: "@ + each_text(named);
            assert(first + second + third =~= first + "  git names at this path: "@ + each_text(
                named,
            ) + "  track "@ + track_text(track));
        },
        None => {
            let first = if worktree.branch is NotSaid {
                "herdr did not list this checkout"@
            } else {
                "no branch reported"@
            };
            let second = "  git names at this path: "@ + each_text(named);
            assert(first + second =~= first + "  git names at this path: "@ + each_text(named));
        },
    }
}

/// A ref is told by its name, its upstream behind an arrow, and how it stands; several stand in
/// their order.
pub proof fn law_refs_are_told_in_order(first: GitRefView, second: GitRefView)
    ensures
        ref_text(first) == first.name + " \u{2192} "@ + upstream_text(first.upstream) + " "@
            + standing_text(first.track, first.upstream),
        each_text(seq![first]) == ref_text(first),
        each_text(seq![first, second]) == ref_text(first) + ", "@ + ref_text(second),
{
    let one = seq![first];
    let two = seq![first, second];
    assert(Seq::new(one.len(), |i: int| ref_text(one[i])) =~= seq![ref_text(first)]);
    let lines = Seq::new(two.len(), |i: int| ref_text(two[i]));
    assert(lines =~= seq![ref_text(first), ref_text(second)]);
    assert(lines.drop_last() =~= seq![ref_text(first)]);
    assert(text::join(lines.drop_last(), ", "@) == ref_text(first));
}

/// A working tree is dirty, clean, unreadable for the reason that git gave, or was not asked about;
/// and it is told by what git said of that checkout.
pub proof fn law_working_tree_is_told_as_git_said(
    trees: Map<Seq<char>, Result<bool, String>>,
    path: Seq<char>,
    words: String,
)
    ensures
        working_tree_text(said_of(trees.insert(path, Ok(true)), path)) == "working tree dirty"@,
        working_tree_text(said_of(trees.insert(path, Ok(false)), path)) == "working tree clean"@,
        working_tree_text(said_of(trees.insert(path, Err(words)), path))
            == "working tree unreadable: "@ + words@,
        working_tree_text(said_of(trees.remove(path), path)) == "working tree not asked"@,
{
}

/// What is known of the refs of a repository for the page is what was read of it the second time,
/// and only where the tree had read them itself. What could not be read is said.
pub proof fn law_refs_are_those_read_again(
    repo: RepoNodeView,
    refs: Map<Seq<char>, Result<Vec<GitRef>, String>>,
    why: Seq<char>,
    words: String,
    list: Vec<GitRef>,
)
    ensures
        repo.refs is Read ==> refs_read(repo, refs.insert(repo.repo_root, Ok(list)))
            == RefsReadView::Read(shapes::views(list@)) && refs_line(
            repo,
            refs.insert(repo.repo_root, Ok(list)),
        ) == ""@,
        repo.refs is Read ==> refs_read(repo, refs.insert(repo.repo_root, Err(words)))
            is NotReadAgain && refs_line(repo, refs.insert(repo.repo_root, Err(words)))
            == "  refs unreadable on the second read: "@ + words@ + "\n"@,
        repo.refs is Read ==> refs_read(repo, refs.remove(repo.repo_root)) is NotReadAgain
            && refs_line(repo, refs.remove(repo.repo_root)) == ""@,
        repo.refs == RefsView::Unreadable(why) ==> refs_read(repo, refs) is NotRead && refs_line(
            repo,
            refs,
        ) == "  refs unreadable: "@ + why + "\n"@,
{
}

/// The line of a checkout has its mark, its name, where it is open and its path; and the line under
/// it what is said of its branch and of its own working tree.
pub proof fn law_checkout_is_told_by_its_own_lines(
    worktree: WorktreeNodeView,
    read: RefsReadView,
    trees: Map<Seq<char>, Result<bool, String>>,
)
    ensures
        mark_text(worktree) == if worktree.is_primary {
            "*"@
        } else {
            "-"@
        },
        heading_text(worktree) == "  "@ + mark_text(worktree) + " "@ + model::label_of(worktree) + (
        match worktree.open_workspace_id {
            Some(id) => " open in "@ + id,
            None => ""@,
        }) + "  "@ + worktree.checkout_path + "\n"@,
        worktree.branch matches BranchView::Out(name) ==> model::label_of(worktree) == name,
        !(worktree.branch is Out) ==> model::label_of(worktree) == model::path_name(
            worktree.checkout_path,
        ),
        worktree_text(worktree, read, trees) == heading_text(worktree) + ("      "@ + branch_text(
            worktree,
            read,
        ) + "  "@ + working_tree_text(said_of(trees, worktree.checkout_path)) + "\n"@)
            + panes_text(worktree.panes),
{
}

/// The head of the page says what runs, which file was read and what is wrong with it, what is
/// set, and how many panes and repositories there are, in this order.
pub proof fn law_head_says_what_runs(
    snapshot: SnapshotView,
    chrome: Chrome,
    config: LoadedView,
    repos: nat,
    path: Seq<char>,
    problem: Seq<char>,
)
    requires
        config.path == Some(path),
    ensures
        config.complaint is None ==> header_text(snapshot, chrome, config, repos) == running_text(
            snapshot,
            chrome,
        ) + ("plugin config: "@ + path + "\n"@) + setting_text(config) + count_text(
            snapshot.panes.len(),
            repos,
        ),
        config.complaint == Some(problem) ==> header_text(snapshot, chrome, config, repos)
            == running_text(snapshot, chrome) + ("plugin config: "@ + path + "\n"@) + (
        "plugin config problem: "@ + problem + "\n"@) + setting_text(config) + count_text(
            snapshot.panes.len(),
            repos,
        ),
        file_text(LoadedView { path: None, ..config }) == "plugin config: missing, defaults\n"@,
        running_text(snapshot, chrome) == "herdr "@ + snapshot.version + " (protocol "@
            + text::decimal(snapshot.protocol as nat) + ")\n"@ + "chrome: accent "@
            + chrome.accent@ + ", indicators "@ + chrome.indicators@ + "\n"@,
        config.settings.panes.show_worktrees_without_panes ==> setting_text(config)
            == "[panes].show_worktrees_without_panes: true\n"@,
        !config.settings.panes.show_worktrees_without_panes ==> setting_text(config)
            == "[panes].show_worktrees_without_panes: false\n"@,
        count_text(snapshot.panes.len(), repos) == text::decimal(snapshot.panes.len())
            + " panes in "@ + text::decimal(repos) + " repos\n"@,
{
    reveal_strlit("");
    reveal_strlit("true");
    reveal_strlit("false");
    reveal_strlit("\n");
    reveal_strlit("[panes].show_worktrees_without_panes: ");
    reveal_strlit("[panes].show_worktrees_without_panes: true\n");
    reveal_strlit("[panes].show_worktrees_without_panes: false\n");
    let start = running_text(snapshot, chrome) + file_text(config);
    assert(start + ""@ =~= start);
    if config.settings.panes.show_worktrees_without_panes {
        assert(setting_text(config) =~= "[panes].show_worktrees_without_panes: true\n"@);
    } else {
        assert(setting_text(config) =~= "[panes].show_worktrees_without_panes: false\n"@);
    }
}

/// A section stands only where there is something in it, under its own heading.
pub proof fn law_empty_section_is_left_out(
    unlisted: Seq<UnlistedView>,
    panes: Seq<PaneNodeView>,
    unplaced: Map<Seq<char>, String>,
)
    ensures
        unlisted_text(seq![]).len() == 0,
        ungrouped_text(seq![], unplaced).len() == 0,
        unlisted.len() > 0 ==> unlisted_text(unlisted) == "\nnot listed:\n"@ + unlisted_lines(
            unlisted,
        ),
        panes.len() > 0 ==> ungrouped_text(panes, unplaced) == "\nnot in any repository:\n"@
            + ungrouped_lines(panes, unplaced),
{
}

/// The repositories that are read again are those that the tree read, in their order.
pub proof fn law_read_again_is_what_was_read(
    first: Seq<RepoNodeView>,
    second: Seq<RepoNodeView>,
    one: RepoNodeView,
)
    ensures
        readable(first + second) == readable(first) + readable(second),
        one.refs is Read ==> readable(seq![one]) == seq![one.repo_root],
        !(one.refs is Read) ==> readable(seq![one]).len() == 0,
{
    lemma_readable_joined(first, second);
    assert(seq![one].drop_last() =~= seq![]);
    assert(readable(seq![one].drop_last()) == Seq::<Seq<char>>::empty());
    assert(seq![one].last() == one);
}

proof fn lemma_readable_joined(
    first: Seq<RepoNodeView>,
    second: Seq<RepoNodeView>,
)
    ensures
        readable(first + second) == readable(first) + readable(second),
    decreases second.len(),
{
    let both = first + second;
    if second.len() == 0 {
        assert(both =~= first);
        assert(readable(first) + readable(second) =~= readable(first));
    } else {
        lemma_readable_joined(first, second.drop_last());
        assert(both.drop_last() =~= first + second.drop_last());
        assert(both.last() == second.last());
        assert(readable(both) =~= readable(first) + readable(second));
    }
}

/// Panes are told one by one and in their order, each on a line with its id, what its agent does
/// and its name.
pub proof fn law_panes_are_told_in_order(
    first: Seq<PaneNodeView>,
    second: Seq<PaneNodeView>,
    one: PaneNodeView,
)
    ensures
        panes_text(first + second) == panes_text(first) + panes_text(second),
        panes_text(seq![one]) == "      "@ + one.pane_id + "  "@ + status_text(one.agent_status)
            + "  "@ + (match one.display_name {
            Some(name) => name,
            None => Seq::<char>::empty(),
        }) + "\n"@,
        status_text(AgentStatus::Idle) == "Idle"@,
        status_text(AgentStatus::Working) == "Working"@,
        status_text(AgentStatus::Blocked) == "Blocked"@,
        status_text(AgentStatus::Done) == "Done"@,
        status_text(AgentStatus::Unknown) == "Unknown"@,
{
    lemma_panes_text_joined(first, second);
    assert(seq![one].drop_last() =~= seq![]);
    assert(panes_text(seq![one].drop_last()) == Seq::<char>::empty());
    assert(seq![one].last() == one);
    assert(Seq::<char>::empty() + "      "@ =~= "      "@);
}

proof fn lemma_panes_text_joined(first: Seq<PaneNodeView>, second: Seq<PaneNodeView>)
    ensures
        panes_text(first + second) == panes_text(first) + panes_text(second),
    decreases second.len(),
{
    let both = first + second;
    if second.len() == 0 {
        assert(both =~= first);
        assert(panes_text(first) + panes_text(second) =~= panes_text(first));
    } else {
        lemma_panes_text_joined(first, second.drop_last());
        assert(both.drop_last() =~= first + second.drop_last());
        assert(both.last() == second.last());
        lemma_last_pane_line(both);
        lemma_last_pane_line(second);
        let line = panes_text(seq![second.last()]);
        assert(panes_text(first) + panes_text(second.drop_last()) + line =~= panes_text(first) + (
        panes_text(second.drop_last()) + line));
    }
}

/// The lines of the panes are those of all but the last, and behind them the line of the last.
proof fn lemma_last_pane_line(panes: Seq<PaneNodeView>)
    requires
        panes.len() > 0,
    ensures
        panes_text(panes) == panes_text(panes.drop_last()) + panes_text(seq![panes.last()]),
{
    let pane = panes.last();
    let before = panes_text(panes.drop_last());
    let name = match pane.display_name {
        Some(name) => name,
        None => seq![],
    };
    let empty = Seq::<char>::empty();
    assert(seq![pane].drop_last() =~= seq![]);
    assert(panes_text(seq![pane].drop_last()) == empty);
    assert(seq![pane].last() == pane);
    lemma_behind(before, "      "@, pane.pane_id, "  "@, status_text(pane.agent_status), name);
    lemma_behind(empty, "      "@, pane.pane_id, "  "@, status_text(pane.agent_status), name);
    let line = "      "@ + (pane.pane_id + ("  "@ + (status_text(pane.agent_status) + ("  "@ + (name
        + "\n"@)))));
    assert(empty + line =~= line);
}

/// Texts put behind another one by one stand there as they do put together.
proof fn lemma_behind(
    before: Seq<char>,
    a: Seq<char>,
    b: Seq<char>,
    c: Seq<char>,
    d: Seq<char>,
    e: Seq<char>,
)
    ensures
        before + a + b + c + d + c + e + "\n"@ == before + (a + (b + (c + (d + (c + (e
            + "\n"@)))))),
{
    let end = "\n"@;
    assert(before + a + b + c + d + c + e + end =~= before + a + b + c + d + c + (e + end));
    assert(before + a + b + c + d + c + (e + end) =~= before + a + b + c + d + (c + (e + end)));
    assert(before + a + b + c + d + (c + (e + end)) =~= before + a + b + c + (d + (c + (e + end))));
    assert(before + a + b + c + (d + (c + (e + end))) =~= before + a + b + (c + (d + (c + (e
        + end)))));
    assert(before + a + b + (c + (d + (c + (e + end)))) =~= before + a + (b + (c + (d + (c + (e
        + end))))));
    assert(before + a + (b + (c + (d + (c + (e + end))))) =~= before + (a + (b + (c + (d + (c + (e
        + end)))))));
}

/// Checkouts are told one by one and in their order.
pub proof fn law_checkouts_are_told_in_order(
    first: Seq<WorktreeNodeView>,
    second: Seq<WorktreeNodeView>,
    one: WorktreeNodeView,
    read: RefsReadView,
    trees: Map<Seq<char>, Result<bool, String>>,
)
    ensures
        worktrees_text(first + second, read, trees) == worktrees_text(first, read, trees) + worktrees_text(second, read, trees),
        worktrees_text(seq![one], read, trees) == worktree_text(one, read, trees),
{
    lemma_worktrees_text_joined(first, second, read, trees);
    assert(seq![one].drop_last() =~= seq![]);
    assert(worktrees_text(seq![one].drop_last(), read, trees) == Seq::<char>::empty());
    assert(seq![one].last() == one);
    assert(Seq::<char>::empty() + worktree_text(one, read, trees) =~= worktree_text(
        one,
        read,
        trees,
    ));
}

proof fn lemma_worktrees_text_joined(
    first: Seq<WorktreeNodeView>,
    second: Seq<WorktreeNodeView>,
    read: RefsReadView,
    trees: Map<Seq<char>, Result<bool, String>>,
)
    ensures
        worktrees_text(first + second, read, trees) == worktrees_text(first, read, trees) + worktrees_text(second, read, trees),
    decreases second.len(),
{
    let both = first + second;
    if second.len() == 0 {
        assert(both =~= first);
        assert(worktrees_text(first, read, trees) + worktrees_text(second, read, trees) =~= worktrees_text(first, read, trees));
    } else {
        lemma_worktrees_text_joined(first, second.drop_last(), read, trees);
        assert(both.drop_last() =~= first + second.drop_last());
        assert(both.last() == second.last());
        assert(worktrees_text(both, read, trees) =~= worktrees_text(first, read, trees) + worktrees_text(second, read, trees));
    }
}

/// Repositories are told one by one and in their order: each by its name and its root, what could
/// not be read of its refs, and its checkouts.
pub proof fn law_repositories_are_told_in_order(
    first: Seq<RepoNodeView>,
    second: Seq<RepoNodeView>,
    one: RepoNodeView,
    refs: Map<Seq<char>, Result<Vec<GitRef>, String>>,
    trees: Map<Seq<char>, Result<bool, String>>,
)
    ensures
        repos_text(first + second, refs, trees) == repos_text(first, refs, trees) + repos_text(second, refs, trees),
        repos_text(seq![one], refs, trees) == "\n"@ + one.display_name + "  ["@ + one.repo_root
            + "]\n"@ + refs_line(one, refs) + worktrees_text(
            one.worktrees,
            refs_read(one, refs),
            trees,
        ),
{
    lemma_repos_text_joined(first, second, refs, trees);
    assert(seq![one].drop_last() =~= seq![]);
    assert(repos_text(seq![one].drop_last(), refs, trees) == Seq::<char>::empty());
    assert(seq![one].last() == one);
    assert(Seq::<char>::empty() + repo_text(one, refs, trees) =~= repo_text(one, refs, trees));
}

proof fn lemma_repos_text_joined(
    first: Seq<RepoNodeView>,
    second: Seq<RepoNodeView>,
    refs: Map<Seq<char>, Result<Vec<GitRef>, String>>,
    trees: Map<Seq<char>, Result<bool, String>>,
)
    ensures
        repos_text(first + second, refs, trees) == repos_text(first, refs, trees) + repos_text(second, refs, trees),
    decreases second.len(),
{
    let both = first + second;
    if second.len() == 0 {
        assert(both =~= first);
        assert(repos_text(first, refs, trees) + repos_text(second, refs, trees) =~= repos_text(first, refs, trees));
    } else {
        lemma_repos_text_joined(first, second.drop_last(), refs, trees);
        assert(both.drop_last() =~= first + second.drop_last());
        assert(both.last() == second.last());
        assert(repos_text(both, refs, trees) =~= repos_text(first, refs, trees) + repos_text(second, refs, trees));
    }
}

/// The repositories that herdr would not list are told in their order, each by its name and its key
/// and, under that, why.
pub proof fn law_unlisted_are_told_in_order(
    first: Seq<UnlistedView>,
    second: Seq<UnlistedView>,
    one: UnlistedView,
)
    ensures
        unlisted_lines(first + second) == unlisted_lines(first) + unlisted_lines(second),
        unlisted_lines(seq![one]) == "  "@ + model::path_name(model::key_directory(one.repo_key))
            + "  ["@ + one.repo_key + "]\n"@ + "      "@ + one.words + "\n"@,
{
    lemma_unlisted_lines_joined(first, second);
    assert(seq![one].drop_last() =~= seq![]);
    assert(unlisted_lines(seq![one].drop_last()) == Seq::<char>::empty());
    assert(seq![one].last() == one);
    assert(Seq::<char>::empty() + "  "@ =~= "  "@);
}

proof fn lemma_unlisted_lines_joined(
    first: Seq<UnlistedView>,
    second: Seq<UnlistedView>,
)
    ensures
        unlisted_lines(first + second) == unlisted_lines(first) + unlisted_lines(second),
    decreases second.len(),
{
    let both = first + second;
    if second.len() == 0 {
        assert(both =~= first);
        assert(unlisted_lines(first) + unlisted_lines(second) =~= unlisted_lines(first));
    } else {
        lemma_unlisted_lines_joined(first, second.drop_last());
        assert(both.drop_last() =~= first + second.drop_last());
        assert(both.last() == second.last());
        assert(unlisted_lines(both) =~= unlisted_lines(first) + unlisted_lines(second));
    }
}

/// The panes in no repository are told in their order, each by its id and, under that, why git would
/// not say where it is.
pub proof fn law_ungrouped_are_told_in_order(
    first: Seq<PaneNodeView>,
    second: Seq<PaneNodeView>,
    one: PaneNodeView,
    unplaced: Map<Seq<char>, String>,
)
    ensures
        ungrouped_lines(first + second, unplaced) == ungrouped_lines(first, unplaced) + ungrouped_lines(second, unplaced),
        unplaced.contains_key(one.pane_id) ==> ungrouped_lines(seq![one], unplaced) == "      "@
            + one.pane_id + "\n"@ + "          "@ + unplaced[one.pane_id]@ + "\n"@,
        !unplaced.contains_key(one.pane_id) ==> ungrouped_lines(seq![one], unplaced)
            == "      "@ + one.pane_id + "\n"@,
{
    lemma_ungrouped_lines_joined(first, second, unplaced);
    assert(seq![one].drop_last() =~= seq![]);
    assert(ungrouped_lines(seq![one].drop_last(), unplaced) == Seq::<char>::empty());
    assert(seq![one].last() == one);
    assert(Seq::<char>::empty() + "      "@ =~= "      "@);
    if unplaced.contains_key(one.pane_id) {
        assert(ungrouped_lines(seq![one], unplaced) =~= "      "@ + one.pane_id + "\n"@
            + "          "@ + unplaced[one.pane_id]@ + "\n"@);
    } else {
        assert(ungrouped_lines(seq![one], unplaced) =~= "      "@ + one.pane_id + "\n"@);
    }
}

proof fn lemma_ungrouped_lines_joined(
    first: Seq<PaneNodeView>,
    second: Seq<PaneNodeView>,
    unplaced: Map<Seq<char>, String>,
)
    ensures
        ungrouped_lines(first + second, unplaced) == ungrouped_lines(first, unplaced) + ungrouped_lines(second, unplaced),
    decreases second.len(),
{
    let both = first + second;
    if second.len() == 0 {
        assert(both =~= first);
        assert(ungrouped_lines(first, unplaced) + ungrouped_lines(second, unplaced) =~= ungrouped_lines(first, unplaced));
    } else {
        lemma_ungrouped_lines_joined(first, second.drop_last(), unplaced);
        assert(both.drop_last() =~= first + second.drop_last());
        assert(both.last() == second.last());
        assert(ungrouped_lines(both, unplaced) =~= ungrouped_lines(first, unplaced) + ungrouped_lines(second, unplaced));
    }
}

/// What was read of a repository is filed under it: what stands under a root is what its own walk
/// said, and nothing stands under a root that was not read.
pub proof fn law_walk_is_filed_under_its_repository(
    roots: Seq<Seq<char>>,
    walks: Seq<Result<RefWalk, String>>,
    i: int,
    other: Seq<char>,
)
    requires
        roots.len() == walks.len(),
        roots.no_duplicates(),
        0 <= i < roots.len(),
        !roots.contains(other),
    ensures
        refs_filed(roots, walks).contains_key(roots[i]),
        refs_filed(roots, walks)[roots[i]] == collect::walked(Reply::Answered(walks[i])),
        !refs_filed(roots, walks).contains_key(other),
    decreases roots.len(),
{
    let less = roots.drop_last();
    let fewer = walks.drop_last();
    assert forall|j: int| 0 <= j < less.len() implies less[j] != other by {
        assert(roots.contains(roots[j]));
        assert(less[j] == roots[j]);
    }
    assert(roots.contains(roots.last()));
    if i < roots.len() - 1 {
        law_walk_is_filed_under_its_repository(less, fewer, i, other);
        assert(less[i] == roots[i]);
        assert(roots[i] != roots.last());
    } else if less.len() > 0 {
        law_walk_is_filed_under_its_repository(less, fewer, 0, other);
    }
}

/// What git said of a checkout is filed under it: whether it is dirty, or on one line why that
/// could not be read.
pub proof fn law_answer_is_filed_under_its_checkout(
    paths: Seq<Seq<char>>,
    answers: Seq<Result<bool, String>>,
    i: int,
    other: Seq<char>,
)
    requires
        paths.len() == answers.len(),
        paths.no_duplicates(),
        0 <= i < paths.len(),
        !paths.contains(other),
    ensures
        trees_filed(paths, answers).contains_key(paths[i]),
        answers[i] matches Ok(dirty) ==> trees_filed(paths, answers)[paths[i]] == Ok::<
            bool,
            Seq<char>,
        >(dirty),
        answers[i] matches Err(words) ==> trees_filed(paths, answers)[paths[i]] == Err::<
            bool,
            Seq<char>,
        >(text::one_line(words@)),
        !trees_filed(paths, answers).contains_key(other),
    decreases paths.len(),
{
    let less = paths.drop_last();
    let fewer = answers.drop_last();
    assert forall|j: int| 0 <= j < less.len() implies less[j] != other by {
        assert(paths.contains(paths[j]));
        assert(less[j] == paths[j]);
    }
    assert(paths.contains(paths.last()));
    if i < paths.len() - 1 {
        law_answer_is_filed_under_its_checkout(less, fewer, i, other);
        assert(less[i] == paths[i]);
        assert(paths[i] != paths.last());
    } else if less.len() > 0 {
        law_answer_is_filed_under_its_checkout(less, fewer, 0, other);
    }
}

} // verus!
