//! What the panes picker's loop does with a key, an answer that arrives, and a removal that ends.

use vstd::prelude::*;

use crate::dirty;
use crate::dirty::{Dirty, Walk, WalkReply};
use crate::model;
use crate::model::{RepoNodeView, Tree};
use crate::panes_state;
use crate::panes_state::{Action, ActionView, Cancelled, PanesState};
use crate::port::{
    PaneSplit, PaneSplitView, RemovalOutcome, SettledPullRequests, SplitDirection, WorktreeOpen,
    WorktreeOpenView,
};
use crate::removal;
use crate::removal::{message, refusal};
use crate::removals;
use crate::removals::{Removal, RemovalView, Removals};
use crate::settled;
use crate::settled::{Question, Settled, SettledReply};
use crate::shapes;
use crate::shapes::reversed;
use crate::text;
use crate::text::{copied, joined};

verus! {

/// What is said of a list that could not be read again.
pub open spec fn could_not_read_text(error: Seq<char>) -> Seq<char> {
    "the list could not be read again: "@ + error
}

/// What is said of a list that could not be read again.
pub fn could_not_read(error: &str) -> (words: String)
    ensures
        words@ == could_not_read_text(error@),
{
    let mut words = "the list could not be read again: ".to_owned();
    words.append(error);
    words
}

/// What is said of a list that was read again.
pub open spec fn read_again() -> Seq<char> {
    "the list has been read again since"@
}

/// What is said of a question that a list read again took back.
pub open spec fn withdrawn_text() -> Seq<char> {
    "the list changed while that was up — ask again"@
}

/// How the picker ends.
pub enum Exit {
    Closed,
    ShowBranches { repo_root: Option<String>, show_worktrees_without_panes: bool },
}

#[verifier::ext_equal]
pub enum ExitView {
    Closed,
    ShowBranches { repo_root: Option<Seq<char>>, show_worktrees_without_panes: bool },
}

impl View for Exit {
    type V = ExitView;

    open spec fn view(&self) -> ExitView {
        match self {
            Exit::Closed => ExitView::Closed,
            Exit::ShowBranches { repo_root, show_worktrees_without_panes } => ExitView::ShowBranches {
                repo_root: shapes::opt(*repo_root),
                show_worktrees_without_panes: *show_worktrees_without_panes,
            },
        }
    }
}

/// What the picker is opened with.
pub struct Options {
    pub initial_pane: Option<String>,
    pub show_worktrees_without_panes: bool,
    pub config_complaint: Option<String>,
}

/// Where the cursor is at first: on a pane that the tree has in a checkout, and else on the first
/// checkout.
pub open spec fn first_cursor(repos: Seq<RepoNodeView>, pane: Option<Seq<char>>) -> (
    Option<Seq<char>>,
    Option<Seq<char>>,
) {
    let found = match pane {
        Some(id) => model::pane_checkout(repos, id),
        None => None,
    };
    match found {
        Some(path) => (Some(path), pane),
        None => (panes_state::first_path(repos), None),
    }
}

/// The picker as it is first shown.
pub fn open(tree: Tree, options: Options, removals: &Removals) -> (state: PanesState)
    ensures
        state.tree == tree,
        state.message == options.config_complaint,
        state.show_worktrees_without_panes == options.show_worktrees_without_panes,
        (shapes::opt(state.selected), shapes::opt(state.selected_pane)) == first_cursor(
            shapes::views(tree.repos@),
            shapes::opt(options.initial_pane),
        ),
        text::texts(state.removing@) == running_paths(removals@),
        state.stale is None,
        state.asked is None,
        state.enter is None,
        state.working_trees@.len() == 0,
        state.settled@ == Map::<Seq<char>, Option<SettledPullRequests>>::empty(),
        state.sweep_trouble is None,
        !state.sweeping,
        !state.sweep_entered,
        !state.waiting,
        !state.asking_gh,
{
    let mut state = PanesState::new(tree);
    state.show_worktrees_without_panes = options.show_worktrees_without_panes;
    state.message = options.config_complaint;
    state.set_removing(removals.paths());
    assert(text::texts(state.removing@) =~= running_paths(removals@));
    if let Some(pane_id) = options.initial_pane {
        state.focus_pane(pane_id);
    }
    state
}

/// Takes back the question that is up, where the pane is too small to show it.
pub fn take_back(state: &mut PanesState)
    ensures
        *final(state) == (PanesState {
            message: final(state).message,
            ..cancelled(*old(state))
        }),
        shapes::opt(final(state).message) == Some("this pane is too small to ask that safely"@),
{
    state.cancel_removal();
    state.set_message("this pane is too small to ask that safely".to_owned());
}

// ---------------------------------------------------------------- the tree, read again

/// What reading the tree again changed.
pub struct CaughtUp {
    /// Whether a question was taken back with the tree it was over.
    pub withdrawn: bool,
    /// The walks to start.
    pub walks: Vec<Walk>,
}

/// The paths of the checkouts of a tree.
pub open spec fn tree_paths(tree: Tree) -> Seq<Seq<char>> {
    model::paths_of(shapes::views(tree.repos@))
}

/// The state that shows a tree that was read again.
pub open spec fn showing(state: PanesState, tree: Tree) -> PanesState {
    PanesState { tree, stale: None, asked: None, ..state }
}

/// Shows a tree that was read again, and asks about the checkouts that are new to it. A reading
/// that failed changes nothing.
pub fn catch_up(state: &mut PanesState, dirty: &mut Dirty, reading: Result<Tree, String>) -> (result:
    Result<CaughtUp, String>)
    ensures
        match (reading, result) {
            (Err(error), Err(words)) => words == error && *final(state) == *old(state) && final(dirty)@ == old(dirty)@,
            (Ok(tree), Ok(caught)) => {
                &&& *final(state) == showing(*old(state), tree)
                &&& caught.withdrawn == (old(state).asked is Some)
                &&& final(dirty)@ == dirty::pumped(dirty::asked(old(dirty)@, tree_paths(tree)))
                &&& dirty::walk_views(caught.walks@) == dirty::started(
                    dirty::asked(old(dirty)@, tree_paths(tree)),
                )
            },
            _ => false,
        },
        old(dirty)@.valid() ==> final(dirty)@.valid(),
{
    match reading {
        Err(error) => Err(error),
        Ok(tree) => {
            let withdrawn = state.replace_tree(tree);
            let walks = dirty.ask(&state.tree);
            Ok(CaughtUp { withdrawn, walks })
        },
    }
}

/// Why the list is read again.
#[derive(Debug, Clone, Copy, PartialEq, Eq, Structural)]
pub enum ReRead {
    /// A key asked for it.
    Key,
    /// A sweep asks its question over what is read now.
    ForSweep,
}

/// The state after a question was taken back.
pub open spec fn cancelled(state: PanesState) -> PanesState {
    PanesState { asked: None, enter: None, ..state }
}

/// Shows a tree that was read again, and asks about every checkout of it again. A key forgets what
/// GitHub said too; a sweep keeps it. A reading that failed takes a question back and leaves the
/// list saying that it is behind. Gives the walks to start.
pub fn re_read(
    state: &mut PanesState,
    dirty: &mut Dirty,
    settled: &mut Settled,
    reading: Result<Tree, String>,
    why: ReRead,
) -> (walks: Vec<Walk>)
    ensures
        match reading {
            Ok(tree) => {
                let next = dirty::asked(dirty::renewed(old(dirty)@), tree_paths(tree));
                &&& *final(state) == (PanesState {
                    working_trees: final(state).working_trees,
                    ..showing(*old(state), tree)
                })
                &&& dirty::are_answers(final(state).working_trees@, final(dirty)@.answers)
                &&& final(dirty)@ == dirty::pumped(next)
                &&& dirty::walk_views(walks@) == dirty::started(next)
                &&& final(settled)@ == if why == ReRead::Key {
                    settled::SettledView {
                        generation: old(settled)@.generation.wrapping_add(1),
                        answers: Map::empty(),
                    }
                } else {
                    old(settled)@
                }
            },
            Err(error) => {
                let was = *old(state);
                &&& *final(state) == (PanesState {
                    stale: final(state).stale,
                    message: final(state).message,
                    ..cancelled(was)
                })
                &&& shapes::opt(final(state).stale) == Some(could_not_read_text(error@))
                &&& if why == ReRead::ForSweep && (was.asked is Some || was.enter is Some) {
                    shapes::opt(final(state).message) == Some("nothing was asked"@)
                } else {
                    final(state).message == was.message
                }
                &&& final(dirty)@ == old(dirty)@
                &&& final(settled)@ == old(settled)@
                &&& walks@.len() == 0
            },
        },
        old(dirty)@.valid() ==> final(dirty)@.valid(),
{
    match reading {
        Ok(tree) => {
            state.replace_tree(tree);
            let walks = dirty.reask(&state.tree);
            if why == ReRead::Key {
                settled.forget();
            }
            state.set_working_trees(dirty.answers());
            walks
        },
        Err(error) => {
            let took = state.cancel_removal();
            state.set_stale(could_not_read(error.as_str()));
            if why == ReRead::ForSweep && took != Cancelled::Nothing {
                state.set_message("nothing was asked".to_owned());
            }
            Vec::new()
        },
    }
}

// ---------------------------------------------------------------- removals that ended

/// The end of a removal: its checkout, and what became of it or the words for why nobody can say.
pub type Ended = (String, Result<RemovalOutcome, String>);

/// What the ends of removals leave: those that still run, what is said, and whether one ended
/// without saying what happened.
#[verifier::ext_equal]
pub struct EndedView {
    pub running: Seq<removals::Running>,
    pub said: Seq<Seq<char>>,
    pub unknown: bool,
}

/// What is left once one removal has ended.
pub open spec fn after_end(so_far: EndedView, end: Ended) -> EndedView {
    let at = removals::place_of(so_far.running, end.0@);
    let known = at < so_far.running.len();
    let label = if known {
        so_far.running[at].1
    } else {
        end.0@
    };
    let panes = if known {
        so_far.running[at].2
    } else {
        0
    };
    let running = if known {
        so_far.running.remove(at)
    } else {
        so_far.running
    };
    match end.1 {
        Ok(outcome) => match removal::message_text(label, outcome@, panes) {
            Some(words) => EndedView { running, said: so_far.said.push(words), ..so_far },
            None => EndedView { running, ..so_far },
        },
        Err(error) => EndedView {
            running,
            said: so_far.said.push(removal::refusal_text(error@, panes)),
            unknown: true,
        },
    }
}

/// What is left once the removals have ended, one after the other.
pub open spec fn after_ends(running: Seq<removals::Running>, ends: Seq<Ended>) -> EndedView
    decreases ends.len(),
{
    if ends.len() == 0 {
        EndedView { running, said: seq![], unknown: false }
    } else {
        after_end(after_ends(running, ends.drop_last()), ends.last())
    }
}

/// What is said in the end: what became of the removals, and behind that what became of the list
/// and of a question over it.
pub open spec fn said_in_all(
    ended: EndedView,
    state: PanesState,
    reading: Result<Tree, String>,
) -> Seq<Seq<char>> {
    match reading {
        Ok(_) => {
            let first = if ended.unknown {
                ended.said.push(read_again())
            } else {
                ended.said
            };
            if state.asked is Some {
                first.push(withdrawn_text())
            } else {
                first
            }
        },
        Err(_) => if state.asked is Some {
            ended.said.push("the question went back"@)
        } else if state.enter is Some {
            ended.said.push("nothing was asked"@)
        } else {
            ended.said
        },
    }
}

/// The checkouts of the removals that run.
pub open spec fn running_paths(running: Seq<removals::Running>) -> Seq<Seq<char>> {
    Seq::new(running.len(), |i: int| running[i].0)
}

/// Takes in the ends of removals. Where there is one, the list has been read again: it is shown, or
/// it says that it is behind and a question over it goes back. All that is said shares the prompt
/// line. Gives the walks to start.
pub fn drain_finished(
    state: &mut PanesState,
    dirty: &mut Dirty,
    removals: &mut Removals,
    ends: Vec<Ended>,
    reading: Option<Result<Tree, String>>,
) -> (walks: Vec<Walk>)
    requires
        ends@.len() > 0 ==> reading is Some,
    ensures
        final(removals)@ == after_ends(old(removals)@, ends@).running,
        ends@.len() == 0 ==> *final(state) == *old(state) && final(dirty)@ == old(dirty)@
            && walks@.len() == 0,
        ends@.len() > 0 ==> {
            let was = *old(state);
            let said = said_in_all(after_ends(old(removals)@, ends@), was, reading->0);
            &&& text::texts(final(state).removing@) == running_paths(final(removals)@)
            &&& if said.len() == 0 {
                final(state).message == was.message
            } else {
                shapes::opt(final(state).message) == Some(text::join(said, "; "@))
            }
            &&& match reading->0 {
                Ok(tree) => {
                    &&& *final(state) == (PanesState {
                        removing: final(state).removing,
                        message: final(state).message,
                        ..showing(was, tree)
                    })
                    &&& final(dirty)@ == dirty::pumped(dirty::asked(old(dirty)@, tree_paths(tree)))
                    &&& dirty::walk_views(walks@) == dirty::started(
                        dirty::asked(old(dirty)@, tree_paths(tree)),
                    )
                },
                Err(error) => {
                    &&& *final(state) == (PanesState {
                        removing: final(state).removing,
                        message: final(state).message,
                        stale: final(state).stale,
                        ..cancelled(was)
                    })
                    &&& shapes::opt(final(state).stale) == Some(could_not_read_text(error@))
                    &&& final(dirty)@ == old(dirty)@
                    &&& walks@.len() == 0
                },
            }
        },
        old(dirty)@.valid() ==> final(dirty)@.valid(),
{
    let ghost all = ends@;
    let ghost running = removals@;
    let count = ends.len();
    let mut back = reversed(ends);
    let mut said: Vec<String> = Vec::new();
    let mut unknown = false;
    let mut i: usize = 0;
    assert(back@.reverse() =~= all.skip(0));
    assert(all.take(0) =~= seq![]);
    while i < count
        invariant
            i <= count,
            count == all.len(),
            back@.reverse() == all.skip(i as int),
            removals@ == after_ends(running, all.take(i as int)).running,
            text::texts(said@) == after_ends(running, all.take(i as int)).said,
            unknown == after_ends(running, all.take(i as int)).unknown,
        decreases count - i,
    {
        let ghost left = back@;
        assert(left.reverse().len() == left.len());
        assert(all.take(i + 1).drop_last() =~= all.take(i as int));
        match back.pop() {
            Some(end) => {
                assert(left.reverse()[0] == end);
                assert(end == all[i as int]);
                assert(back@.reverse() =~= left.reverse().skip(1));
                assert(all.skip(i as int).skip(1) =~= all.skip(i + 1));
                assert(all.take(i + 1).last() == end);
                let ghost before = text::texts(said@);
                let finished = removals.finished(end.0, end.1);
                match finished.outcome {
                    Ok(outcome) => match message(
                        finished.label.as_str(),
                        &outcome,
                        finished.panes_closed,
                    ) {
                        Some(words) => {
                            said.push(words);
                            assert(text::texts(said@) =~= before.push(words@));
                        },
                        None => {},
                    },
                    Err(error) => {
                        unknown = true;
                        let words = refusal(error.as_str(), finished.panes_closed);
                        said.push(words);
                        assert(text::texts(said@) =~= before.push(words@));
                    },
                }
            },
            None => {},
        }
        i = i + 1;
    }
    assert(all.take(i as int) =~= all);
    if count == 0 {
        return Vec::new();
    }
    state.set_removing(removals.paths());
    assert(text::texts(state.removing@) =~= running_paths(removals@));
    let mut walks: Vec<Walk> = Vec::new();
    let ghost ended = text::texts(said@);
    match reading {
        None => {},
        Some(reading) => match catch_up(state, dirty, reading) {
            Ok(caught) => {
                if unknown {
                    said.push("the list has been read again since".to_owned());
                    assert(text::texts(said@) =~= ended.push(read_again()));
                }
                let ghost so_far = text::texts(said@);
                if caught.withdrawn {
                    said.push("the list changed while that was up — ask again".to_owned());
                    assert(text::texts(said@) =~= so_far.push(withdrawn_text()));
                }
                walks = caught.walks;
            },
            Err(error) => {
                state.set_stale(could_not_read(error.as_str()));
                match state.cancel_removal() {
                    Cancelled::Question => {
                        said.push("the question went back".to_owned());
                        assert(text::texts(said@) =~= ended.push("the question went back"@));
                    },
                    Cancelled::Enter => {
                        said.push("nothing was asked".to_owned());
                        assert(text::texts(said@) =~= ended.push("nothing was asked"@));
                    },
                    Cancelled::Nothing => {},
                }
            },
        },
    }
    assert(text::texts(said@).len() == said@.len());
    if said.len() > 0 {
        state.set_message(joined(&said, "; "));
    }
    walks
}

// ---------------------------------------------------------------- removals that start

/// The removal of a sweep that is tried next, from what came of those before it: the words for one
/// that would not start, or nothing. None where every one was tried.
pub open spec fn sweep_next(sweep: Seq<Removal>, outcomes: Seq<Option<String>>) -> Option<
    RemovalView,
> {
    if outcomes.len() < sweep.len() {
        Some(sweep[outcomes.len() as int]@)
    } else {
        None
    }
}

/// What the removals said that would not start, in their order.
pub open spec fn refusals(outcomes: Seq<Option<String>>) -> Seq<Seq<char>>
    decreases outcomes.len(),
{
    if outcomes.len() == 0 {
        seq![]
    } else {
        match outcomes.last() {
            Some(words) => refusals(outcomes.drop_last()).push(words@),
            None => refusals(outcomes.drop_last()),
        }
    }
}

/// The removal of a sweep that is to be tried next. Once every one was tried, whatever came of it,
/// shows which checkouts are going, and every refusal together.
pub fn start_sweep(
    state: &mut PanesState,
    removals: &Removals,
    sweep: &Vec<Removal>,
    outcomes: &Vec<Option<String>>,
) -> (next: Option<Removal>)
    ensures
        shapes::opt(next) == sweep_next(sweep@, outcomes@),
        next is Some ==> *final(state) == *old(state),
        next is None ==> {
            &&& *final(state) == (PanesState {
                removing: final(state).removing,
                message: final(state).message,
                ..*old(state)
            })
            &&& text::texts(final(state).removing@) == running_paths(removals@)
            &&& if refusals(outcomes@).len() == 0 {
                final(state).message == old(state).message
            } else {
                shapes::opt(final(state).message) == Some(
                    text::join(refusals(outcomes@), "; "@),
                )
            }
        },
{
    if outcomes.len() < sweep.len() {
        return Some(sweep[outcomes.len()].copy());
    }
    let mut refused: Vec<String> = Vec::new();
    let mut i: usize = 0;
    assert(text::texts(refused@) =~= refusals(outcomes@.take(0)));
    while i < outcomes.len()
        invariant
            i <= outcomes@.len(),
            text::texts(refused@) == refusals(outcomes@.take(i as int)),
        decreases outcomes@.len() - i,
    {
        assert(outcomes@.take(i + 1).drop_last() =~= outcomes@.take(i as int));
        let ghost so_far = text::texts(refused@);
        match &outcomes[i] {
            Some(words) => {
                refused.push(words.clone());
                assert(text::texts(refused@) =~= so_far.push(words@));
            },
            None => {},
        }
        i = i + 1;
    }
    assert(outcomes@.take(i as int) =~= outcomes@);
    assert(text::texts(refused@).len() == refused@.len());
    if refused.len() > 0 {
        state.set_message(joined(&refused, "; "));
    }
    state.set_removing(removals.paths());
    assert(text::texts(state.removing@) =~= running_paths(removals@));
    None
}

/// Shows which checkouts are going after one removal was started, or why it was not. Where it was
/// to close panes the list has been read again, whatever came of the removal. Gives the walks to
/// start.
pub fn start_removal(
    state: &mut PanesState,
    dirty: &mut Dirty,
    removals: &Removals,
    removal: &Removal,
    refused: Option<String>,
    reading: Option<Result<Tree, String>>,
) -> (walks: Vec<Walk>)
    requires
        removal.panes@.len() > 0 ==> reading is Some,
    ensures
        text::texts(final(state).removing@) == running_paths(removals@),
        final(state).message == match refused {
            Some(words) => Some(words),
            None => old(state).message,
        },
        removal.panes@.len() == 0 ==> *final(state) == (PanesState {
            removing: final(state).removing,
            message: final(state).message,
            ..*old(state)
        }) && final(dirty)@ == old(dirty)@ && walks@.len() == 0,
        removal.panes@.len() > 0 ==> match reading->0 {
            Ok(tree) => {
                &&& *final(state) == (PanesState {
                    removing: final(state).removing,
                    message: final(state).message,
                    ..showing(*old(state), tree)
                })
                &&& final(dirty)@ == dirty::pumped(dirty::asked(old(dirty)@, tree_paths(tree)))
                &&& dirty::walk_views(walks@) == dirty::started(
                    dirty::asked(old(dirty)@, tree_paths(tree)),
                )
            },
            Err(error) => {
                &&& *final(state) == (PanesState {
                    removing: final(state).removing,
                    message: final(state).message,
                    stale: final(state).stale,
                    ..*old(state)
                })
                &&& shapes::opt(final(state).stale) == Some(could_not_read_text(error@))
                &&& final(dirty)@ == old(dirty)@
                &&& walks@.len() == 0
            },
        },
        old(dirty)@.valid() ==> final(dirty)@.valid(),
{
    state.set_removing(removals.paths());
    assert(text::texts(state.removing@) =~= running_paths(removals@));
    let mut walks: Vec<Walk> = Vec::new();
    if removal.panes.len() > 0 {
        match reading {
            Some(reading) => match catch_up(state, dirty, reading) {
                Ok(caught) => {
                    walks = caught.walks;
                },
                Err(error) => {
                    state.set_stale(could_not_read(error.as_str()));
                },
            },
            None => {},
        }
    }
    match refused {
        Some(words) => {
            state.set_message(words);
        },
        None => {},
    }
    walks
}

// ---------------------------------------------------------------- answers that arrive

/// What a look at the answers left to do.
pub struct Shown {
    /// Whether an answer is still to come.
    pub coming: bool,
    /// The walks to start.
    pub walks: Vec<Walk>,
    /// The questions to put about pull requests.
    pub questions: Vec<Question>,
}

/// The questions about pull requests, before any reply is read: where a sweep is on, every
/// repository of the tree is asked about, and the refused ones again where it was just entered.
pub open spec fn settled_asked(state: PanesState, settled: settled::SettledView) -> (
    settled::SettledView,
    Seq<Seq<char>>,
) {
    if state.sweeping {
        let first = if state.sweep_entered {
            settled::SettledView { answers: settled::without_refusals(settled.answers), ..settled }
        } else {
            settled
        };
        settled::asked(first, settled::roots_of(shapes::views(state.tree.repos@)))
    } else {
        (settled, seq![])
    }
}

/// Whether a question about a repository of the tree is out.
pub open spec fn any_asking(answers: Map<Seq<char>, settled::AnswerView>, tree: Tree) -> bool {
    exists|i: int|
        0 <= i < tree.repos@.len() && settled::is_asking(
            answers,
            (#[trigger] tree.repos@[i]).repo_root@,
        )
}

/// The state with everything that is known now, before the question of a sweep comes up.
pub open spec fn informed(
    state: PanesState,
    mid: PanesState,
    dirty: dirty::DirtyView,
    settled: settled::SettledView,
) -> bool {
    let roots = settled::roots_of(shapes::views(state.tree.repos@));
    &&& mid == (PanesState {
        working_trees: mid.working_trees,
        waiting: dirty.in_flight > 0 || dirty.queued.len() > 0,
        sweep_entered: state.sweep_entered && !state.sweeping,
        settled: mid.settled,
        sweep_trouble: mid.sweep_trouble,
        asking_gh: any_asking(settled.answers, state.tree),
        ..state
    })
    &&& dirty::are_answers(mid.working_trees@, dirty.answers)
    &&& settled::known_map(mid.settled@) == settled::known_answers(settled.answers, roots)
    &&& shapes::opt(mid.sweep_trouble) == settled::trouble_text(
        settled.answers,
        shapes::views(state.tree.repos@),
    )
}

/// Reads the answers that arrived and shows them, puts the questions that a sweep needs answered,
/// and brings its own question up once everything it rests on has been read.
pub fn show_answers(
    state: &mut PanesState,
    dirty: &mut Dirty,
    settled: &mut Settled,
    walked: &Vec<WalkReply>,
    answered: Vec<SettledReply>,
) -> (shown: Shown)
    ensures
        final(dirty)@ == dirty::pumped(dirty::drained(old(dirty)@, walked@)),
        dirty::walk_views(shown.walks@) == dirty::started(dirty::drained(old(dirty)@, walked@)),
        final(settled)@ == settled::drained(settled_asked(*old(state), old(settled)@).0, answered@),
        settled::question_views(shown.questions@) == Seq::new(
            settled_asked(*old(state), old(settled)@).1.len(),
            |i: int|
                (old(settled)@.generation, settled_asked(*old(state), old(settled)@).1[i]),
        ),
        exists|mid: PanesState| #[trigger]
            informed(*old(state), mid, final(dirty)@, final(settled)@) && panes_state::confirmed(
                mid,
                *final(state),
            ),
        shown.coming == (final(dirty)@.in_flight > 0 || final(dirty)@.queued.len() > 0
            || any_asking(final(settled)@.answers, old(state).tree)),
        old(dirty)@.valid() ==> final(dirty)@.valid(),
{
    let ghost before = *state;
    let walks = dirty.drain(walked);
    state.set_working_trees(dirty.answers());
    let reading = dirty.is_waiting();
    state.waiting = reading;
    let mut questions: Vec<Question> = Vec::new();
    if state.sweeping {
        if state.take_sweep_entered() {
            settled.forget_failures();
        }
        questions = settled.ask(&state.tree);
    }
    assert(settled::question_views(questions@) =~= Seq::new(
        settled_asked(before, old(settled)@).1.len(),
        |i: int| (old(settled)@.generation, settled_asked(before, old(settled)@).1[i]),
    ));
    settled.drain(answered);
    let known = settled.answers(&state.tree);
    let trouble = settled.trouble(&state.tree);
    let asking = settled.is_waiting(&state.tree);
    state.set_settled(known, trouble, asking);
    let ghost mid = *state;
    assert(informed(before, mid, dirty@, settled@));
    state.confirm_sweep_if_settled();
    Shown { coming: reading || asking, walks, questions }
}

// ---------------------------------------------------------------- going somewhere

/// What an action comes to: an end, or something to ask of herdr before the end.
pub enum Performed {
    End(Exit),
    FocusPane(String),
    OpenWorktree(WorktreeOpen),
    SplitPane(PaneSplit),
}

#[verifier::ext_equal]
pub enum PerformedView {
    End(ExitView),
    FocusPane(Seq<char>),
    OpenWorktree(WorktreeOpenView),
    SplitPane(PaneSplitView),
}

impl View for Performed {
    type V = PerformedView;

    open spec fn view(&self) -> PerformedView {
        match self {
            Performed::End(exit) => PerformedView::End(exit@),
            Performed::FocusPane(pane) => PerformedView::FocusPane(pane@),
            Performed::OpenWorktree(request) => PerformedView::OpenWorktree(request@),
            Performed::SplitPane(request) => PerformedView::SplitPane(request@),
        }
    }
}

/// What an action comes to.
pub open spec fn performed(action: ActionView, show_worktrees_without_panes: bool) -> PerformedView {
    match action {
        ActionView::Jump(pane) => PerformedView::FocusPane(pane),
        ActionView::OpenWorktree { repo_root, checkout_path } => PerformedView::OpenWorktree(
            WorktreeOpenView {
                cwd: repo_root,
                path: Some(checkout_path),
                branch: None,
                focus: true,
            },
        ),
        ActionView::NewPane { checkout_path, beside_pane_id } => PerformedView::SplitPane(
            PaneSplitView {
                target_pane_id: beside_pane_id,
                direction: SplitDirection::Right,
                cwd: Some(checkout_path),
                focus: true,
            },
        ),
        ActionView::ShowBranches { repo_root } => PerformedView::End(
            ExitView::ShowBranches { repo_root, show_worktrees_without_panes },
        ),
        _ => PerformedView::End(ExitView::Closed),
    }
}

/// What an action comes to.
pub fn perform(action: Action, show_worktrees_without_panes: bool) -> (next: Performed)
    ensures
        next@ == performed(action@, show_worktrees_without_panes),
{
    match action {
        Action::Jump(pane) => Performed::FocusPane(pane),
        Action::OpenWorktree { repo_root, checkout_path } => Performed::OpenWorktree(
            WorktreeOpen { cwd: repo_root, path: Some(checkout_path), branch: None, focus: true },
        ),
        Action::NewPane { checkout_path, beside_pane_id } => Performed::SplitPane(
            PaneSplit {
                target_pane_id: beside_pane_id,
                direction: SplitDirection::Right,
                cwd: Some(checkout_path),
                focus: true,
            },
        ),
        Action::ShowBranches { repo_root } => Performed::End(
            Exit::ShowBranches { repo_root, show_worktrees_without_panes },
        ),
        Action::Quit => Performed::End(Exit::Closed),
        Action::Consumed => Performed::End(Exit::Closed),
        Action::Ignored => Performed::End(Exit::Closed),
        Action::Reload => Performed::End(Exit::Closed),
        Action::SweepReload => Performed::End(Exit::Closed),
        Action::RemoveWorktree(_) => Performed::End(Exit::Closed),
        Action::RemoveWorktrees(_) => Performed::End(Exit::Closed),
    }
}

/// What an action comes to in this state of the picker.
pub fn finish(action: Action, state: &PanesState) -> (next: Performed)
    ensures
        next@ == performed(action@, state.show_worktrees_without_panes),
{
    perform(action, state.show_worktrees_without_panes)
}

/// How the picker ends once herdr answered what an action asked of it: it is closed where that went
/// well, and what herdr said comes out as it is where it refused. An action that asks for nothing
/// ends as it says, whatever was answered.
pub open spec fn exit_after(next: PerformedView, answer: Result<(), Seq<char>>) -> Result<
    ExitView,
    Seq<char>,
> {
    match (next, answer) {
        (PerformedView::End(exit), _) => Ok(exit),
        (_, Ok(_)) => Ok(ExitView::Closed),
        (_, Err(words)) => Err(words),
    }
}

/// What an answer of herdr that only has to go well says.
pub open spec fn answer_view(answer: Result<(), String>) -> Result<(), Seq<char>> {
    match answer {
        Ok(_) => Ok(()),
        Err(words) => Err(words@),
    }
}

/// How an end, or the words for why there is none, are spelled.
pub open spec fn exit_view(exit: Result<Exit, String>) -> Result<ExitView, Seq<char>> {
    match exit {
        Ok(exit) => Ok(exit@),
        Err(words) => Err(words@),
    }
}

/// How the picker ends once herdr answered what an action asked of it.
pub fn performed_exit(next: &Performed, answer: Result<(), String>) -> (exit: Result<Exit, String>)
    ensures
        exit_view(exit) == exit_after(next@, answer_view(answer)),
{
    match next {
        Performed::End(Exit::Closed) => Ok(Exit::Closed),
        Performed::End(Exit::ShowBranches { repo_root, show_worktrees_without_panes }) => Ok(
            Exit::ShowBranches {
                repo_root: copied(repo_root),
                show_worktrees_without_panes: *show_worktrees_without_panes,
            },
        ),
        _ => match answer {
            Ok(_) => Ok(Exit::Closed),
            Err(words) => Err(words),
        },
    }
}

/// What is said of an action that herdr refused.
pub open spec fn asked_for_text(action: ActionView) -> Seq<char> {
    match action {
        ActionView::Jump(_) => "could not go to that pane"@,
        ActionView::OpenWorktree { .. } => "could not open that checkout"@,
        ActionView::NewPane { .. } => "could not add a pane there"@,
        _ => "that did not work"@,
    }
}

/// What is said of an action that herdr refused.
pub fn asked_for(action: &Action) -> (words: &'static str)
    ensures
        words@ == asked_for_text(action@),
{
    match action {
        Action::Jump(_) => "could not go to that pane",
        Action::OpenWorktree { .. } => "could not open that checkout",
        Action::NewPane { .. } => "could not add a pane there",
        _ => "that did not work",
    }
}

/// What came of asking herdr: an end where it went well. Where herdr refused, the picker stays up,
/// says what herdr said, and shows the list that has been read again. Gives the walks to start.
pub fn act(
    state: &mut PanesState,
    dirty: &mut Dirty,
    asked: &str,
    answer: Result<Exit, String>,
    reading: Option<Result<Tree, String>>,
) -> (result: (Option<Exit>, Vec<Walk>))
    requires
        answer is Err ==> reading is Some,
    ensures
        match answer {
            Ok(exit) => result.0 == Some(exit) && result.1@.len() == 0 && *final(state) == *old(state) && final(dirty)@ == old(dirty)@,
            Err(error) => {
                &&& result.0 is None
                &&& shapes::opt(final(state).message) == Some(asked@ + ": "@ + error@)
                &&& match reading->0 {
                    Ok(tree) => {
                        &&& *final(state) == (PanesState {
                            message: final(state).message,
                            ..showing(*old(state), tree)
                        })
                        &&& final(dirty)@ == dirty::pumped(
                            dirty::asked(old(dirty)@, tree_paths(tree)),
                        )
                        &&& dirty::walk_views(result.1@) == dirty::started(
                            dirty::asked(old(dirty)@, tree_paths(tree)),
                        )
                    },
                    Err(failed) => {
                        &&& *final(state) == (PanesState {
                            message: final(state).message,
                            stale: final(state).stale,
                            ..*old(state)
                        })
                        &&& shapes::opt(final(state).stale) == Some(could_not_read_text(failed@))
                        &&& final(dirty)@ == old(dirty)@
                        &&& result.1@.len() == 0
                    },
                }
            },
        },
        old(dirty)@.valid() ==> final(dirty)@.valid(),
{
    match answer {
        Ok(exit) => (Some(exit), Vec::new()),
        Err(error) => {
            let mut words = asked.to_owned();
            words.append(": ");
            words.append(error.as_str());
            state.set_message(words);
            let mut walks: Vec<Walk> = Vec::new();
            match reading {
                Some(reading) => match catch_up(state, dirty, reading) {
                    Ok(caught) => {
                        walks = caught.walks;
                    },
                    Err(failed) => {
                        state.set_stale(could_not_read(failed.as_str()));
                    },
                },
                None => {},
            }
            (None, walks)
        },
    }
}

// ---------------------------------------------------------------- laws

/// Each removal of a sweep is tried once and in order, whatever came of those before it.
pub proof fn law_every_removal_of_a_sweep_is_tried(
    sweep: Seq<Removal>,
    outcomes: Seq<Option<String>>,
    i: int,
)
    requires
        outcomes.len() == sweep.len(),
        0 <= i < sweep.len(),
    ensures
        sweep_next(sweep, outcomes.take(i)) == Some(sweep[i]@),
        sweep_next(sweep, outcomes) is None,
{
}

/// An action that takes the user somewhere closes the picker where herdr did it, and comes out with
/// herdr's own words where it did not.
pub proof fn law_going_somewhere_closes_the_picker(
    action: ActionView,
    show_worktrees_without_panes: bool,
    words: Seq<char>,
)
    requires
        action is Jump || action is OpenWorktree || action is NewPane,
    ensures
        exit_after(performed(action, show_worktrees_without_panes), Ok(())) == Ok::<
            ExitView,
            Seq<char>,
        >(ExitView::Closed),
        exit_after(performed(action, show_worktrees_without_panes), Err(words)) == Err::<
            ExitView,
            Seq<char>,
        >(words),
{
}

/// A question that a list read again took back is said last.
pub proof fn law_withdrawal_is_said_last(
    ended: EndedView,
    state: PanesState,
    tree: Tree,
)
    requires
        state.asked is Some,
    ensures
        said_in_all(ended, state, Ok(tree)).last() == withdrawn_text(),
        said_in_all(ended, state, Ok(tree)).take(ended.said.len() as int) == ended.said,
{
    let said = said_in_all(ended, state, Ok(tree));
    assert(said.take(ended.said.len() as int) =~= ended.said);
}

/// However many removals ended without saying what happened, the one list that was read again is
/// said once.
pub proof fn law_read_again_is_said_once(ended: EndedView, state: PanesState, tree: Tree)
    requires
        state.asked is None,
    ensures
        said_in_all(ended, state, Ok(tree)) == if ended.unknown {
            ended.said.push(read_again())
        } else {
            ended.said
        },
{
}

/// No question outlives a reading that failed, and none goes in silence: the one that was up goes
/// back, so does one that was still to come up, and that is said behind what became of the
/// removals. Where there was none, nothing is said and nothing changes.
pub proof fn law_failed_reading_takes_the_question_back(
    ended: EndedView,
    state: PanesState,
    error: String,
)
    ensures
        cancelled(state).asked is None,
        cancelled(state).enter is None,
        ({
            let said = said_in_all(ended, state, Err(error));
            if state.asked is Some || state.enter is Some {
                said.len() == ended.said.len() + 1 && said.drop_last() == ended.said
            } else {
                said == ended.said && cancelled(state) == state
            }
        }),
{
    let said = said_in_all(ended, state, Err(error));
    if state.asked is Some || state.enter is Some {
        assert(said.drop_last() =~= ended.said);
    }
}

/// A removal that went well has nothing to say and no longer runs, and the others go on.
pub proof fn law_removed_says_nothing(so_far: EndedView, path: String)
    ensures
        ({
            let at = removals::place_of(so_far.running, path@);
            after_end(so_far, (path, Ok(RemovalOutcome::Removed))) == EndedView {
                running: if at < so_far.running.len() {
                    so_far.running.remove(at)
                } else {
                    so_far.running
                },
                ..so_far
            }
        }),
{
}

/// The end of a removal is of the removal that runs for its checkout: that one no longer runs, the
/// others go on in their order, and what is said of it is said by its own name and counts its own
/// panes. Only an end without an outcome leaves it unknown what happened.
pub proof fn law_end_is_of_its_own_removal(so_far: EndedView, end: Ended, i: int)
    requires
        0 <= i < so_far.running.len(),
        so_far.running[i].0 == end.0@,
        forall|j: int| 0 <= j < i ==> (#[trigger] so_far.running[j]).0 != end.0@,
    ensures
        after_end(so_far, end).running == so_far.running.remove(i),
        after_end(so_far, end).unknown == (so_far.unknown || end.1 is Err),
        after_end(so_far, end).said == match end.1 {
            Ok(outcome) => match removal::message_text(
                so_far.running[i].1,
                outcome@,
                so_far.running[i].2,
            ) {
                Some(words) => so_far.said.push(words),
                None => so_far.said,
            },
            Err(error) => so_far.said.push(removal::refusal_text(error@, so_far.running[i].2)),
        },
{
    lemma_place_found(so_far.running, end.0@, i);
}

/// The end of a removal that nobody knows of ends none of those that run, and is told by the path
/// of its checkout.
pub proof fn law_unknown_end_ends_no_other(so_far: EndedView, end: Ended)
    requires
        forall|j: int|
            0 <= j < so_far.running.len() ==> (#[trigger] so_far.running[j]).0 != end.0@,
    ensures
        after_end(so_far, end).running == so_far.running,
        after_end(so_far, end).unknown == (so_far.unknown || end.1 is Err),
        after_end(so_far, end).said == match end.1 {
            Ok(outcome) => match removal::message_text(end.0@, outcome@, 0) {
                Some(words) => so_far.said.push(words),
                None => so_far.said,
            },
            Err(error) => so_far.said.push(removal::refusal_text(error@, 0)),
        },
{
    lemma_place_not_found(so_far.running, end.0@);
}

proof fn lemma_place_found(running: Seq<removals::Running>, path: Seq<char>, i: int)
    requires
        0 <= i < running.len(),
        running[i].0 == path,
        forall|j: int| 0 <= j < i ==> (#[trigger] running[j]).0 != path,
    ensures
        removals::place_of(running, path) == i,
    decreases i,
{
    if i > 0 {
        let rest = running.skip(1);
        assert(rest[i - 1] == running[i]);
        assert forall|j: int| 0 <= j < i - 1 implies (#[trigger] rest[j]).0 != path by {
            assert(rest[j] == running[j + 1]);
        }
        lemma_place_found(rest, path, i - 1);
    }
}

proof fn lemma_place_not_found(running: Seq<removals::Running>, path: Seq<char>)
    requires
        forall|j: int| 0 <= j < running.len() ==> (#[trigger] running[j]).0 != path,
    ensures
        removals::place_of(running, path) == running.len(),
    decreases running.len(),
{
    if running.len() > 0 {
        let rest = running.skip(1);
        assert forall|j: int| 0 <= j < rest.len() implies (#[trigger] rest[j]).0 != path by {
            assert(rest[j] == running[j + 1]);
        }
        lemma_place_not_found(rest, path);
    }
}

/// Removals end one after the other: the last end is taken in behind all the others, and before
/// any of them nothing is said and nothing is unknown.
pub proof fn law_ends_are_taken_in_order(
    running: Seq<removals::Running>,
    ends: Seq<Ended>,
    last: Ended,
)
    ensures
        after_ends(running, ends.push(last)) == after_end(after_ends(running, ends), last),
        after_ends(running, seq![]) == (EndedView { running, said: seq![], unknown: false }),
{
    assert(ends.push(last).drop_last() =~= ends);
    assert(ends.push(last).last() == last);
}

/// What is said of the list and of a question over it, in words, behind what became of the
/// removals.
pub proof fn law_what_became_of_the_question_is_said(
    ended: EndedView,
    state: PanesState,
    tree: Tree,
    error: String,
)
    ensures
        ended.unknown && state.asked is Some ==> said_in_all(ended, state, Ok(tree)) == ended.said
            + seq![
            "the list has been read again since"@,
            "the list changed while that was up — ask again"@,
        ],
        ended.unknown && state.asked is None ==> said_in_all(ended, state, Ok(tree)) == ended.said
            + seq!["the list has been read again since"@],
        !ended.unknown && state.asked is Some ==> said_in_all(ended, state, Ok(tree)) == ended.said
            + seq!["the list changed while that was up — ask again"@],
        !ended.unknown && state.asked is None ==> said_in_all(ended, state, Ok(tree))
            == ended.said,
        state.asked is Some ==> said_in_all(ended, state, Err(error)) == ended.said + seq![
            "the question went back"@,
        ],
        state.asked is None && state.enter is Some ==> said_in_all(ended, state, Err(error))
            == ended.said + seq!["nothing was asked"@],
        state.asked is None && state.enter is None ==> said_in_all(ended, state, Err(error))
            == ended.said,
{
}

/// A tree that was read again is shown as it is: it is no longer behind, no question is up over
/// it, and nothing else of the picker changes. A question taken back changes nothing but that.
pub proof fn law_tree_read_again_is_shown(state: PanesState, tree: Tree)
    ensures
        showing(state, tree).tree == tree,
        showing(state, tree).stale is None,
        showing(state, tree).asked is None,
        state == (PanesState {
            tree: state.tree,
            stale: state.stale,
            asked: state.asked,
            ..showing(state, tree)
        }),
        cancelled(state).asked is None,
        cancelled(state).enter is None,
        state == (PanesState { asked: state.asked, enter: state.enter, ..cancelled(state) }),
{
}

/// Every refusal of a sweep is said, in their order, and nothing else.
pub proof fn law_every_refusal_is_said(
    first: Seq<Option<String>>,
    second: Seq<Option<String>>,
    words: String,
)
    ensures
        refusals(first + second) == refusals(first) + refusals(second),
        refusals(seq![Some(words)]) == seq![words@],
        refusals(seq![None]).len() == 0,
{
    lemma_refusals_joined(first, second);
    let said: Seq<Option<String>> = seq![Some(words)];
    let none: Seq<Option<String>> = seq![None];
    assert(said.drop_last() =~= seq![]);
    assert(none.drop_last() =~= seq![]);
    assert(refusals(said.drop_last()) == Seq::<Seq<char>>::empty());
    assert(refusals(none.drop_last()) == Seq::<Seq<char>>::empty());
    assert(said.last() == Some(words));
    assert(none.last() is None);
}

proof fn lemma_refusals_joined(first: Seq<Option<String>>, second: Seq<Option<String>>)
    ensures
        refusals(first + second) == refusals(first) + refusals(second),
    decreases second.len(),
{
    let both = first + second;
    if second.len() == 0 {
        assert(both =~= first);
    } else {
        lemma_refusals_joined(first, second.drop_last());
        assert(both.drop_last() =~= first + second.drop_last());
        assert(both.last() == second.last());
    }
}

/// GitHub is asked only while a sweep is on, and only about repositories of the tree: about those
/// of which nothing is known, and, as the sweep is entered, again about those that were refused.
pub proof fn law_only_a_sweep_asks(
    state: PanesState,
    settled: settled::SettledView,
    root: Seq<char>,
)
    ensures
        !state.sweeping ==> settled_asked(state, settled).0 == settled && settled_asked(
            state,
            settled,
        ).1.len() == 0,
        state.sweeping ==> (settled_asked(state, settled).1.contains(root) <==> (exists|i: int|
            0 <= i < state.tree.repos@.len() && (#[trigger] state.tree.repos@[i]).repo_root@
                == root) && (!settled.answers.contains_key(root) || (state.sweep_entered
            && settled.answers[root] is Refused))),
        settled_asked(state, settled).0.generation == settled.generation,
{
    let roots = settled::roots_of(shapes::views(state.tree.repos@));
    let first = if state.sweep_entered {
        settled::SettledView {
            answers: settled::without_refusals(settled.answers),
            ..settled
        }
    } else {
        settled
    };
    settled::law_each_repository_is_asked_about_once(first, roots, root);
    if roots.contains(root) {
        let i = choose|i: int| 0 <= i < roots.len() && roots[i] == root;
        assert(state.tree.repos@[i].repo_root@ == root);
    }
    if exists|i: int|
        0 <= i < state.tree.repos@.len() && (#[trigger] state.tree.repos@[i]).repo_root@ == root {
        let i = choose|i: int|
            0 <= i < state.tree.repos@.len() && (#[trigger] state.tree.repos@[i]).repo_root@
                == root;
        assert(roots[i] == root);
    }
}

/// What is known now is shown, and only that changes: the cursor, the tree and a question that is
/// up stay; a walk that runs or waits to, and a question that is out, are waited for.
pub proof fn law_answers_change_only_what_is_known(
    state: PanesState,
    mid: PanesState,
    dirty: dirty::DirtyView,
    settled: settled::SettledView,
)
    requires
        informed(state, mid, dirty, settled),
    ensures
        mid.tree == state.tree,
        mid.asked == state.asked,
        mid.enter == state.enter,
        mid.selected == state.selected,
        mid.selected_pane == state.selected_pane,
        mid.removing == state.removing,
        mid.message == state.message,
        mid.stale == state.stale,
        mid.sweeping == state.sweeping,
        mid.waiting <==> dirty.in_flight > 0 || dirty.queued.len() > 0,
        state.sweeping ==> !mid.sweep_entered,
        mid.asking_gh <==> exists|i: int|
            0 <= i < state.tree.repos@.len() && settled.answers.contains_key(
                (#[trigger] state.tree.repos@[i]).repo_root@,
            ) && settled.answers[state.tree.repos@[i].repo_root@] is Asking,
{
    if exists|i: int|
        0 <= i < state.tree.repos@.len() && settled.answers.contains_key(
            (#[trigger] state.tree.repos@[i]).repo_root@,
        ) && settled.answers[state.tree.repos@[i].repo_root@] is Asking {
        let i = choose|i: int|
            0 <= i < state.tree.repos@.len() && settled.answers.contains_key(
                (#[trigger] state.tree.repos@[i]).repo_root@,
            ) && settled.answers[state.tree.repos@[i].repo_root@] is Asking;
        assert(settled::is_asking(settled.answers, state.tree.repos@[i].repo_root@));
    }
}

/// Each action asks of herdr what it is for: to go to its pane, to open its checkout in its
/// repository, or to add a pane to the right of its pane and in its checkout. Showing the branches
/// ends with its repository and with how the list was shown, and any other action only ends.
pub proof fn law_action_asks_for_what_it_is(
    action: ActionView,
    show_worktrees_without_panes: bool,
    answer: Result<(), Seq<char>>,
)
    ensures
        ({
            let next = performed(action, show_worktrees_without_panes);
            match action {
                ActionView::Jump(pane) => next == PerformedView::FocusPane(pane),
                ActionView::OpenWorktree { repo_root, checkout_path } => next
                    matches PerformedView::OpenWorktree(request) && request.cwd == repo_root
                    && request.path == Some(checkout_path) && request.branch is None
                    && request.focus,
                ActionView::NewPane { checkout_path, beside_pane_id } => next
                    matches PerformedView::SplitPane(request) && request.target_pane_id
                    == beside_pane_id && request.direction == SplitDirection::Right && request.cwd
                    == Some(checkout_path) && request.focus,
                ActionView::ShowBranches { repo_root } => exit_after(next, answer) == Ok::<
                    ExitView,
                    Seq<char>,
                >(ExitView::ShowBranches { repo_root, show_worktrees_without_panes }),
                _ => exit_after(next, answer) == Ok::<ExitView, Seq<char>>(ExitView::Closed),
            }
        }),
        asked_for_text(action) == if action is Jump {
            "could not go to that pane"@
        } else if action is OpenWorktree {
            "could not open that checkout"@
        } else if action is NewPane {
            "could not add a pane there"@
        } else {
            "that did not work"@
        },
        forall|error: Seq<char>| #[trigger]
            could_not_read_text(error) == "the list could not be read again: "@ + error,
{
}

/// The cursor is at first on the pane that was asked for, where a checkout has it, and else on the
/// first checkout and on no pane.
pub proof fn law_cursor_is_first_on_the_pane_asked_for(repos: Seq<RepoNodeView>, pane: Seq<char>)
    ensures
        first_cursor(repos, None) == (panes_state::first_path(repos), None::<Seq<char>>),
        match model::pane_checkout(repos, pane) {
            Some(path) => first_cursor(repos, Some(pane)) == (Some(path), Some(pane)),
            None => first_cursor(repos, Some(pane)) == (
                panes_state::first_path(repos),
                None::<Seq<char>>,
            ),
        },
{
}

/// The checkouts that are going are those of the removals that run, one for one; and the checkouts
/// of a tree are those of its repositories.
pub proof fn law_going_is_what_a_removal_runs_for(
    running: Seq<removals::Running>,
    i: int,
    tree: Tree,
)
    requires
        0 <= i < running.len(),
    ensures
        running_paths(running).len() == running.len(),
        running_paths(running)[i] == running[i].0,
        tree_paths(tree) == model::paths_of(shapes::views(tree.repos@)),
{
}

} // verus!
