//! The removals that are running: what has to happen before one starts, and what came of it.

use vstd::prelude::*;

use crate::model;
use crate::model::{PaneNodeView, WorktreeNode, WorktreeNodeView};
use crate::port::RemovalOutcome;
use crate::removal;
use crate::removal::{interrupted, not_started, refusal};
use crate::remove::Args;
use crate::text;
use crate::text::{copies, same};

verus! {

/// That the panes of a checkout are closed, and how many they were. There is no other way to one
/// than to have closed them.
#[derive(Debug)]
pub struct PanesClosed(usize);

impl View for PanesClosed {
    type V = nat;

    closed spec fn view(&self) -> nat {
        self.0 as nat
    }
}

impl PanesClosed {
    /// How many panes were closed.
    pub fn count(&self) -> (n: usize)
        ensures
            n == self@,
    {
        self.0
    }
}

/// A removal that is running.
struct InFlight {
    checkout_path: String,
    label: String,
    panes_closed: usize,
}

/// A removal that ended: what it was called, how many panes were closed for it, and what became of
/// it, or the words for a process that could not say.
#[derive(Debug)]
pub struct Finished {
    pub label: String,
    pub panes_closed: usize,
    pub outcome: Result<RemovalOutcome, String>,
}

/// The removals that are running.
pub struct Removals {
    in_flight: Vec<InFlight>,
}

/// A removal that is running, as its checkout, its label and how many panes were closed for it.
pub type Running = (Seq<char>, Seq<char>, nat);

impl View for Removals {
    type V = Seq<Running>;

    closed spec fn view(&self) -> Seq<Running> {
        Seq::new(
            self.in_flight@.len(),
            |i: int|
                (
                    self.in_flight@[i].checkout_path@,
                    self.in_flight@[i].label@,
                    self.in_flight@[i].panes_closed as nat,
                ),
        )
    }
}

/// How the closing of panes goes on.
pub enum Closing {
    /// Close this pane.
    Close(String),
    /// All of them are closed.
    Closed(PanesClosed),
    /// One would not close: this is what is said of it.
    Stopped(String),
}

#[verifier::ext_equal]
pub enum ClosingView {
    Close(Seq<char>),
    Closed(nat),
    Stopped(Seq<char>),
}

impl View for Closing {
    type V = ClosingView;

    open spec fn view(&self) -> ClosingView {
        match self {
            Closing::Close(pane) => ClosingView::Close(pane@),
            Closing::Closed(closed) => ClosingView::Closed(closed@),
            Closing::Stopped(words) => ClosingView::Stopped(words@),
        }
    }
}

/// The place of the first reply that refused, or the number of replies.
pub open spec fn first_refusal(replies: Seq<Result<(), String>>) -> int
    decreases replies.len(),
{
    if replies.len() == 0 || replies[0] is Err {
        0
    } else {
        1 + first_refusal(replies.skip(1))
    }
}

/// How the closing of `panes` goes on, from herdr's replies so far. The first that refuses stops
/// it.
pub open spec fn closing(panes: Seq<Seq<char>>, replies: Seq<Result<(), String>>) -> ClosingView {
    let at = first_refusal(replies);
    if at < replies.len() {
        match replies[at] {
            Err(words) => ClosingView::Stopped(
                removal::interrupted_text(panes[at], words@, at as nat, panes.len()),
            ),
            Ok(_) => ClosingView::Closed(0),
        }
    } else if replies.len() < panes.len() {
        ClosingView::Close(panes[replies.len() as int])
    } else {
        ClosingView::Closed(panes.len())
    }
}

/// The place of the removal of a checkout, or the number of removals.
pub open spec fn place_of(running: Seq<Running>, path: Seq<char>) -> int
    decreases running.len(),
{
    if running.len() == 0 || running[0].0 == path {
        0
    } else {
        1 + place_of(running.skip(1), path)
    }
}

/// What a removal is to do: the checkout, what it is called, and the panes to close before it.
#[derive(Debug, Clone, PartialEq, Eq)]
pub struct Removal {
    pub repo_root: String,
    pub checkout_path: String,
    pub label: String,
    pub panes: Vec<String>,
    /// Whether the branch is to go once the checkout has gone.
    pub delete_branch: bool,
}

#[verifier::ext_equal]
pub struct RemovalView {
    pub repo_root: Seq<char>,
    pub checkout_path: Seq<char>,
    pub label: Seq<char>,
    pub panes: Seq<Seq<char>>,
    pub delete_branch: bool,
}

impl View for Removal {
    type V = RemovalView;

    open spec fn view(&self) -> RemovalView {
        RemovalView {
            repo_root: self.repo_root@,
            checkout_path: self.checkout_path@,
            label: self.label@,
            panes: text::texts(self.panes@),
            delete_branch: self.delete_branch,
        }
    }
}

/// The ids of the panes in a checkout.
pub open spec fn pane_ids(panes: Seq<PaneNodeView>) -> Seq<Seq<char>> {
    Seq::new(panes.len(), |i: int| panes[i].pane_id)
}

/// The removal of a checkout, with its branch or without.
pub open spec fn removal_of(
    repo_root: Seq<char>,
    worktree: WorktreeNodeView,
    delete_branch: bool,
) -> RemovalView {
    RemovalView {
        repo_root,
        checkout_path: worktree.checkout_path,
        label: model::label_of(worktree),
        panes: pane_ids(worktree.panes),
        delete_branch,
    }
}

impl Removal {
    /// The removal of a checkout alone.
    pub fn of(repo_root: &str, worktree: &WorktreeNode) -> (removal: Removal)
        ensures
            removal@ == removal_of(repo_root@, worktree@, false),
    {
        Removal::with(repo_root, worktree, false)
    }

    /// The removal of a checkout and then of its branch.
    pub fn sweeping(repo_root: &str, worktree: &WorktreeNode) -> (removal: Removal)
        ensures
            removal@ == removal_of(repo_root@, worktree@, true),
    {
        Removal::with(repo_root, worktree, true)
    }

    fn with(repo_root: &str, worktree: &WorktreeNode, delete_branch: bool) -> (removal: Removal)
        ensures
            removal@ == removal_of(repo_root@, worktree@, delete_branch),
    {
        let ghost ids = pane_ids(worktree@.panes);
        let mut panes: Vec<String> = Vec::new();
        let mut i: usize = 0;
        while i < worktree.panes.len()
            invariant
                i <= worktree.panes@.len(),
                ids == pane_ids(worktree@.panes),
                text::texts(panes@) == ids.take(i as int),
            decreases worktree.panes@.len() - i,
        {
            let ghost before = text::texts(panes@);
            panes.push(worktree.panes[i].pane_id.clone());
            assert(text::texts(panes@) =~= before.push(ids[i as int]));
            assert(ids.take(i + 1) =~= before.push(ids[i as int]));
            i = i + 1;
        }
        assert(ids.take(i as int) =~= ids);
        Removal {
            repo_root: repo_root.to_owned(),
            checkout_path: worktree.checkout_path.clone(),
            label: worktree.label(),
            panes,
            delete_branch,
        }
    }

    /// A copy of the removal.
    pub fn copy(&self) -> (removal: Removal)
        ensures
            removal@ == self@,
    {
        Removal {
            repo_root: self.repo_root.clone(),
            checkout_path: self.checkout_path.clone(),
            label: self.label.clone(),
            panes: copies(&self.panes),
            delete_branch: self.delete_branch,
        }
    }
}

/// What a removal needs next.
pub enum Step {
    /// Close this pane.
    Close(String),
    /// Start a process that is told this.
    Start(Args),
    /// It is running.
    Running,
    /// It is not, for this reason.
    Refused(String),
}

impl Removals {
    /// Nothing is running.
    pub fn new() -> (removals: Removals)
        ensures
            removals@ == Seq::<Running>::empty(),
    {
        let removals = Removals { in_flight: Vec::new() };
        assert(removals@ =~= Seq::<Running>::empty());
        removals
    }

    /// How the closing of `panes` goes on.
    pub fn close_panes(panes: &Vec<String>, replies: &Vec<Result<(), String>>) -> (next: Closing)
        requires
            replies@.len() <= panes@.len(),
        ensures
            next@ == closing(text::texts(panes@), replies@),
    {
        let mut i: usize = 0;
        assert(replies@.skip(0) =~= replies@);
        while i < replies.len()
            invariant
                i <= replies@.len(),
                replies@.len() <= panes@.len(),
                first_refusal(replies@) == i + first_refusal(replies@.skip(i as int)),
            decreases replies@.len() - i,
        {
            assert(replies@.skip(i as int)[0] == replies@[i as int]);
            match &replies[i] {
                Err(words) => {
                    return Closing::Stopped(
                        interrupted(panes[i].as_str(), words.as_str(), i, panes.len()),
                    );
                },
                Ok(_) => {},
            }
            assert(replies@.skip(i as int).skip(1) =~= replies@.skip(i + 1));
            i = i + 1;
        }
        if replies.len() < panes.len() {
            Closing::Close(panes[replies.len()].clone())
        } else {
            Closing::Closed(PanesClosed(panes.len()))
        }
    }

    /// Takes in a removal whose process was started, which takes having closed its panes.
    pub fn start(&mut self, checkout_path: &str, label: &str, closed: PanesClosed)
        ensures
            final(self)@ == old(self)@.push((checkout_path@, label@, closed@)),
    {
        let ghost before = self@;
        self.in_flight.push(
            InFlight {
                checkout_path: checkout_path.to_owned(),
                label: label.to_owned(),
                panes_closed: closed.0,
            },
        );
        assert(self@ =~= before.push((checkout_path@, label@, closed@)));
    }

    /// What a removal needs next: its panes closed one by one, then its process started. It counts
    /// as running only once that went well.
    pub fn remove(
        &mut self,
        removal: &Removal,
        closed: &Vec<Result<(), String>>,
        started: &Option<Result<(), String>>,
    ) -> (step: Step)
        requires
            closed@.len() <= removal.panes@.len(),
        ensures
            match closing(text::texts(removal.panes@), closed@) {
                ClosingView::Close(pane) => final(self)@ == old(self)@ && (step matches Step::Close(
                    id,
                ) && id@ == pane),
                ClosingView::Stopped(words) => final(self)@ == old(self)@ && (step
                    matches Step::Refused(said) && said@ == words),
                ClosingView::Closed(n) => match *started {
                    None => final(self)@ == old(self)@ && (step matches Step::Start(args)
                        && args.repo_root@ == removal.repo_root@ && args.checkout_path@
                        == removal.checkout_path@ && args.label@ == removal.label@
                        && args.panes_closed == n && args.delete_branch == removal.delete_branch),
                    Some(Ok(_)) => step is Running && final(self)@ == old(self)@.push(
                        (removal.checkout_path@, removal.label@, n),
                    ),
                    Some(Err(words)) => final(self)@ == old(self)@ && (step matches Step::Refused(
                        said,
                    ) && said@ == removal::refusal_text(
                        removal::not_started_text(removal.label@, words@),
                        n,
                    )),
                },
            },
    {
        match Removals::close_panes(&removal.panes, closed) {
            Closing::Close(pane) => Step::Close(pane),
            Closing::Stopped(words) => Step::Refused(words),
            Closing::Closed(panes) => match started {
                None => Step::Start(
                    Args {
                        repo_root: removal.repo_root.clone(),
                        checkout_path: removal.checkout_path.clone(),
                        label: removal.label.clone(),
                        panes_closed: panes.count(),
                        delete_branch: removal.delete_branch,
                    },
                ),
                Some(Ok(_)) => {
                    self.start(removal.checkout_path.as_str(), removal.label.as_str(), panes);
                    Step::Running
                },
                Some(Err(words)) => {
                    let said = not_started(removal.label.as_str(), words.as_str());
                    Step::Refused(refusal(said.as_str(), panes.count()))
                },
            },
        }
    }

    /// The checkouts that are being removed, in the order in which that was started.
    pub fn paths(&self) -> (paths: Vec<String>)
        ensures
            text::texts(paths@) == Seq::new(self@.len(), |i: int| self@[i].0),
    {
        let ghost all = Seq::new(self@.len(), |i: int| self@[i].0);
        let mut paths: Vec<String> = Vec::new();
        let mut i: usize = 0;
        while i < self.in_flight.len()
            invariant
                i <= self.in_flight@.len(),
                all == Seq::new(self@.len(), |i: int| self@[i].0),
                text::texts(paths@) == all.take(i as int),
            decreases self.in_flight@.len() - i,
        {
            let ghost before = text::texts(paths@);
            paths.push(self.in_flight[i].checkout_path.clone());
            assert(text::texts(paths@) =~= before.push(all[i as int]));
            assert(all.take(i + 1) =~= before.push(all[i as int]));
            i = i + 1;
        }
        assert(all.take(i as int) =~= all);
        paths
    }

    /// Whether nothing is running.
    pub fn is_empty(&self) -> (empty: bool)
        ensures
            empty == (self@.len() == 0),
    {
        self.in_flight.len() == 0
    }

    /// Takes in the end of the removal of a checkout. An end that no running removal is known for
    /// is called by its path.
    pub fn finished(&mut self, checkout_path: String, outcome: Result<RemovalOutcome, String>) -> (
        finished: Finished)
        ensures
            finished.outcome == outcome,
            ({
                let at = place_of(old(self)@, checkout_path@);
                if at < old(self)@.len() {
                    &&& final(self)@ == old(self)@.remove(at)
                    &&& finished.label@ == old(self)@[at].1
                    &&& finished.panes_closed == old(self)@[at].2
                } else {
                    &&& final(self)@ == old(self)@
                    &&& finished.label@ == checkout_path@
                    &&& finished.panes_closed == 0
                }
            }),
    {
        let ghost before = self@;
        let mut i: usize = 0;
        assert(before.skip(0) =~= before);
        while i < self.in_flight.len()
            invariant
                i <= self.in_flight@.len(),
                self@ == before,
                before == old(self)@,
                place_of(before, checkout_path@) == i + place_of(
                    before.skip(i as int),
                    checkout_path@,
                ),
            decreases self.in_flight@.len() - i,
        {
            assert(before.skip(i as int)[0] == before[i as int]);
            if same(self.in_flight[i].checkout_path.as_str(), checkout_path.as_str()) {
                let removal = self.in_flight.remove(i);
                assert(self@ =~= before.remove(i as int));
                return Finished {
                    label: removal.label,
                    panes_closed: removal.panes_closed,
                    outcome,
                };
            }
            assert(before.skip(i as int).skip(1) =~= before.skip(i + 1));
            i = i + 1;
        }
        Finished { label: checkout_path, panes_closed: 0, outcome }
    }
}

// ---------------------------------------------------------------- laws

/// The panes count as closed only when herdr closed every one of them.
pub proof fn law_closed_means_every_pane(panes: Seq<Seq<char>>, replies: Seq<Result<(), String>>)
    requires
        replies.len() <= panes.len(),
        closing(panes, replies) is Closed,
    ensures
        replies.len() == panes.len(),
        forall|i: int| 0 <= i < replies.len() ==> (#[trigger] replies[i]) is Ok,
        closing(panes, replies) == ClosingView::Closed(panes.len()),
{
    lemma_first_refusal(replies);
}

proof fn lemma_first_refusal(replies: Seq<Result<(), String>>)
    ensures
        0 <= first_refusal(replies) <= replies.len(),
        forall|i: int| 0 <= i < first_refusal(replies) ==> (#[trigger] replies[i]) is Ok,
        first_refusal(replies) < replies.len() ==> replies[first_refusal(replies)] is Err,
    decreases replies.len(),
{
    if replies.len() > 0 && replies[0] is Ok {
        let rest = replies.skip(1);
        lemma_first_refusal(rest);
        assert forall|i: int| 0 <= i < first_refusal(replies) implies (#[trigger] replies[i]) is Ok by {
            if i > 0 {
                assert(rest[i - 1] == replies[i]);
            }
        }
        if first_refusal(replies) < replies.len() {
            assert(rest[first_refusal(rest)] == replies[first_refusal(replies)]);
        }
    }
}

/// Whether no checkout is removed twice at once.
pub open spec fn are_distinct(running: Seq<Running>) -> bool {
    forall|i: int, j: int|
        0 <= i < j < running.len() ==> (#[trigger] running[i]).0 != (#[trigger] running[j]).0
}

/// The end of a removal is told of that removal and of no other, and the others go on: the removal
/// is found by its checkout wherever it stands, is found no longer once it ended, and each other
/// one is still there.
pub proof fn law_end_finds_its_removal(running: Seq<Running>, i: int)
    requires
        are_distinct(running),
        0 <= i < running.len(),
    ensures
        place_of(running, running[i].0) == i,
        place_of(running.remove(i), running[i].0) == running.len() - 1,
        are_distinct(running.remove(i)),
        forall|j: int|
            0 <= j < running.len() && j != i ==> running.remove(i).contains(#[trigger] running[j]),
{
    let rest = running.remove(i);
    lemma_place_of(running, running[i].0, i);
    assert forall|j: int| 0 <= j < rest.len() implies (#[trigger] rest[j]).0 != running[i].0 by {
        assert(rest[j] == if j < i {
            running[j]
        } else {
            running[j + 1]
        });
    }
    lemma_place_of(rest, running[i].0, rest.len() as int);
    assert forall|j: int| 0 <= j < running.len() && j != i implies rest.contains(
        #[trigger] running[j],
    ) by {
        let k = if j < i {
            j
        } else {
            j - 1
        };
        assert(rest[k] == running[j]);
    }
}

/// The first removal of a checkout is at `i` where none before it is of that checkout, and it is,
/// or `i` is behind them all.
proof fn lemma_place_of(running: Seq<Running>, path: Seq<char>, i: int)
    requires
        0 <= i <= running.len(),
        forall|j: int| 0 <= j < i ==> (#[trigger] running[j]).0 != path,
        i < running.len() ==> running[i].0 == path,
    ensures
        place_of(running, path) == i,
    decreases running.len(),
{
    if i > 0 {
        assert(running[0].0 != path);
        let rest = running.skip(1);
        assert forall|j: int| 0 <= j < i - 1 implies (#[trigger] rest[j]).0 != path by {
            assert(rest[j] == running[j + 1]);
        }
        lemma_place_of(rest, path, i - 1);
    }
}

/// The panes are closed one by one in their order, each only once all before it are; the first that
/// refuses stops it, in its own words and with the number of those that were closed.
pub proof fn law_panes_are_closed_in_order(panes: Seq<Seq<char>>, replies: Seq<Result<(), String>>)
    requires
        replies.len() <= panes.len(),
    ensures
        match closing(panes, replies) {
            ClosingView::Close(pane) => {
                &&& replies.len() < panes.len()
                &&& pane == panes[replies.len() as int]
                &&& forall|i: int| 0 <= i < replies.len() ==> (#[trigger] replies[i]) is Ok
            },
            ClosingView::Closed(n) => n == panes.len() && replies.len() == panes.len() && forall|
                i: int,
            | 0 <= i < replies.len() ==> (#[trigger] replies[i]) is Ok,
            ClosingView::Stopped(words) => exists|at: int|
                0 <= at < replies.len() && (#[trigger] replies[at]) is Err && words
                    == removal::interrupted_text(
                    panes[at],
                    replies[at]->Err_0@,
                    at as nat,
                    panes.len(),
                ) && forall|i: int| 0 <= i < at ==> (#[trigger] replies[i]) is Ok,
        },
{
    lemma_first_refusal(replies);
}

/// The removal of a checkout is of that checkout: its path, its name and every pane in it, in their
/// order; and its branch goes only where that was asked for.
pub proof fn law_removal_is_of_its_checkout(
    repo_root: Seq<char>,
    worktree: WorktreeNodeView,
    delete_branch: bool,
    i: int,
)
    requires
        0 <= i < worktree.panes.len(),
    ensures
        ({
            let removal = removal_of(repo_root, worktree, delete_branch);
            &&& removal.repo_root == repo_root
            &&& removal.checkout_path == worktree.checkout_path
            &&& removal.label == model::label_of(worktree)
            &&& removal.delete_branch == delete_branch
            &&& removal.panes.len() == worktree.panes.len()
            &&& removal.panes[i] == worktree.panes[i].pane_id
        }),
{
}

} // verus!
