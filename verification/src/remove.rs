//! The removal of one checkout, in the process that outlives the picker.

use vstd::prelude::*;

use crate::port::{Notification, RemovalOutcome, RemovalOutcomeView};
use crate::removal;
use crate::removal::{notification, report_line};
use crate::shapes;
use crate::text;
use crate::text::{chars_of, read_number, same};

verus! {

/// What the process is told to do, read off its command line.
#[derive(Debug, Clone, PartialEq, Eq)]
pub struct Args {
    pub repo_root: String,
    pub checkout_path: String,
    pub label: String,
    /// How many panes were closed to get here.
    pub panes_closed: usize,
    /// Whether the branch is to go once the checkout has gone.
    pub delete_branch: bool,
}

#[verifier::ext_equal]
pub struct ArgsView {
    pub repo_root: Seq<char>,
    pub checkout_path: Seq<char>,
    pub label: Seq<char>,
    pub panes_closed: nat,
    pub delete_branch: bool,
}

impl View for Args {
    type V = ArgsView;

    open spec fn view(&self) -> ArgsView {
        ArgsView {
            repo_root: self.repo_root@,
            checkout_path: self.checkout_path@,
            label: self.label@,
            panes_closed: self.panes_closed as nat,
            delete_branch: self.delete_branch,
        }
    }
}

/// The words for a command line that names too little.
pub open spec fn too_few() -> Seq<char> {
    "`remove` needs a repository root, a checkout path, and a branch name"@
}

/// The words for a token behind the branch that is neither a count nor the flag.
pub open spec fn not_understood(token: Seq<char>) -> Seq<char> {
    "`remove` does not understand `"@ + token
        + "`: after the branch come a pane count, `delete-branch`, or nothing"@
}

/// What the tokens behind the branch say: the last count among them, and whether the flag is
/// among them. The first token that is neither is an error.
pub open spec fn tail_of(tokens: Seq<Seq<char>>) -> Result<(nat, bool), Seq<char>>
    decreases tokens.len(),
{
    if tokens.len() == 0 {
        Ok((0, false))
    } else {
        match tail_of(tokens.drop_last()) {
            Err(words) => Err(words),
            Ok((count, flag)) => match text::number(tokens.last(), usize::MAX as nat) {
                Some(n) => Ok((n, flag)),
                None => if tokens.last() == "delete-branch"@ {
                    Ok((count, true))
                } else {
                    Err(not_understood(tokens.last()))
                },
            },
        }
    }
}

/// What a command line tells the process to do.
pub open spec fn read_of(args: Seq<Seq<char>>) -> Result<ArgsView, Seq<char>> {
    if args.len() < 3 {
        Err(too_few())
    } else {
        match tail_of(args.skip(3)) {
            Err(words) => Err(words),
            Ok((panes_closed, delete_branch)) => Ok(
                ArgsView {
                    repo_root: args[0],
                    checkout_path: args[1],
                    label: args[2],
                    panes_closed,
                    delete_branch,
                },
            ),
        }
    }
}

proof fn lemma_tail_fails(tokens: Seq<Seq<char>>, i: int)
    requires
        0 <= i <= tokens.len(),
        tail_of(tokens.take(i)) is Err,
    ensures
        tail_of(tokens) == tail_of(tokens.take(i)),
    decreases tokens.len() - i,
{
    if i < tokens.len() {
        assert(tokens.take(i + 1).drop_last() =~= tokens.take(i));
        lemma_tail_fails(tokens, i + 1);
    } else {
        assert(tokens.take(i) =~= tokens);
    }
}

impl Args {
    /// Reads the command line behind the mode's name.
    pub fn read(args: &Vec<String>) -> (read: Result<Args, String>)
        ensures
            shapes::outcome(read) == read_of(text::texts(args@)),
    {
        if args.len() < 3 {
            return Err(
                "`remove` needs a repository root, a checkout path, and a branch name".to_owned(),
            );
        }
        let ghost tokens = text::texts(args@).skip(3);
        let mut panes_closed: usize = 0;
        let mut delete_branch = false;
        let mut i: usize = 3;
        while i < args.len()
            invariant
                3 <= i <= args@.len(),
                tokens == text::texts(args@).skip(3),
                tail_of(tokens.take(i - 3)) == Ok::<_, Seq<char>>(
                    (panes_closed as nat, delete_branch),
                ),
            decreases args@.len() - i,
        {
            let token = args[i].as_str();
            proof {
                let now = tokens.take(i - 2);
                assert(now.drop_last() =~= tokens.take(i - 3));
                assert(now.last() == token@);
                if tail_of(now) is Err {
                    lemma_tail_fails(tokens, i - 2);
                }
            }
            let cs = chars_of(token);
            match read_number(cs.as_slice(), usize::MAX as u64) {
                Some(count) => {
                    panes_closed = count as usize;
                },
                None => {
                    if same(token, "delete-branch") {
                        delete_branch = true;
                    } else {
                        let mut words = "`remove` does not understand `".to_owned();
                        words.append(token);
                        words.append(
                            "`: after the branch come a pane count, `delete-branch`, or nothing",
                        );
                        return Err(words);
                    }
                },
            }
            i = i + 1;
        }
        assert(tokens.take(i - 3) =~= tokens);
        Ok(
            Args {
                repo_root: args[0].clone(),
                checkout_path: args[1].clone(),
                label: args[2].clone(),
                panes_closed,
                delete_branch,
            },
        )
    }
}

/// A count and the flag are read the same in either order.
pub proof fn law_flag_and_count_in_either_order(named: Seq<Seq<char>>, count: Seq<char>)
    requires
        named.len() == 3,
        text::number(count, usize::MAX as nat) is Some,
    ensures
        read_of(named.push(count).push("delete-branch"@)) == read_of(
            named.push("delete-branch"@).push(count),
        ),
        read_of(named.push(count).push("delete-branch"@)) is Ok,
{
    let flag = "delete-branch"@;
    reveal_strlit("delete-branch");
    assert(text::number(flag, usize::MAX as nat) is None) by {
        assert(!text::is_digit(flag[0]));
    }
    let one = named.push(count).push(flag).skip(3);
    let two = named.push(flag).push(count).skip(3);
    assert(one =~= seq![count, flag]);
    assert(two =~= seq![flag, count]);
    assert(one.drop_last() =~= seq![count]);
    assert(two.drop_last() =~= seq![flag]);
    assert(seq![count].drop_last() =~= seq![]);
    assert(seq![flag].drop_last() =~= seq![]);
    let n = text::number(count, usize::MAX as nat)->0;
    assert(tail_of(seq![]) == Ok::<_, Seq<char>>((0nat, false)));
    assert(tail_of(seq![count]) == Ok::<_, Seq<char>>((n, false)));
    assert(tail_of(seq![flag]) == Ok::<_, Seq<char>>((0nat, true)));
    assert(tail_of(one) == Ok::<_, Seq<char>>((n, true)));
    assert(tail_of(two) == Ok::<_, Seq<char>>((n, true)));
}

/// What a removal does next.
pub enum Next {
    /// Ask git to remove the checkout.
    RemoveWorktree,
    /// Ask git to delete the branch.
    DeleteBranch,
    /// Nothing more: this is what became of it.
    Finished(RemovalOutcome),
}

#[verifier::ext_equal]
pub enum NextView {
    RemoveWorktree,
    DeleteBranch,
    Finished(RemovalOutcomeView),
}

impl View for Next {
    type V = NextView;

    open spec fn view(&self) -> NextView {
        match self {
            Next::RemoveWorktree => NextView::RemoveWorktree,
            Next::DeleteBranch => NextView::DeleteBranch,
            Next::Finished(outcome) => NextView::Finished(outcome@),
        }
    }
}

/// What a removal does next, from what git answered so far: to the removal of the checkout, and
/// to the deletion of the branch. The branch is reached only once the checkout has gone.
pub open spec fn next_of(
    removed: Option<Result<(), Seq<char>>>,
    delete_branch: bool,
    deleted: Option<Result<(), Seq<char>>>,
) -> NextView {
    match removed {
        None => NextView::RemoveWorktree,
        Some(Err(words)) => NextView::Finished(RemovalOutcomeView::Refused(words)),
        Some(Ok(())) => if !delete_branch {
            NextView::Finished(RemovalOutcomeView::Removed)
        } else {
            match deleted {
                None => NextView::DeleteBranch,
                Some(Ok(())) => NextView::Finished(RemovalOutcomeView::Removed),
                Some(Err(words)) => NextView::Finished(RemovalOutcomeView::BranchKept(words)),
            }
        },
    }
}

/// What git answered to something it was told to do, if it was told already.
pub open spec fn told(answer: Option<Result<(), String>>) -> Option<Result<(), Seq<char>>> {
    match answer {
        None => None,
        Some(Ok(())) => Some(Ok(())),
        Some(Err(words)) => Some(Err(words@)),
    }
}

/// What a removal does next.
pub fn outcome(
    removed: &Option<Result<(), String>>,
    delete_branch: bool,
    deleted: &Option<Result<(), String>>,
) -> (next: Next)
    ensures
        next@ == next_of(told(*removed), delete_branch, told(*deleted)),
{
    match removed {
        None => Next::RemoveWorktree,
        Some(Err(words)) => Next::Finished(RemovalOutcome::Refused(words.clone())),
        Some(Ok(())) => if !delete_branch {
            Next::Finished(RemovalOutcome::Removed)
        } else {
            match deleted {
                None => Next::DeleteBranch,
                Some(Ok(())) => Next::Finished(RemovalOutcome::Removed),
                Some(Err(words)) => Next::Finished(RemovalOutcome::BranchKept(words.clone())),
            }
        },
    }
}

/// A removal that git refused never reaches the branch, and neither does one that was not told
/// to delete it.
pub proof fn law_branch_only_after_its_checkout(
    removed: Option<Result<(), Seq<char>>>,
    delete_branch: bool,
    deleted: Option<Result<(), Seq<char>>>,
)
    ensures
        next_of(removed, delete_branch, deleted) == NextView::DeleteBranch ==> delete_branch
            && removed matches Some(Ok(_)),
{
}

/// What the process says once the removal has ended: first the notification, then the line.
pub struct Report {
    pub notification: Notification,
    pub line: String,
}

/// What the process says once the removal has ended.
pub fn run(args: &Args, outcome: &RemovalOutcome) -> (report: Report)
    ensures
        report.notification@ == removal::notification_of(
            args.label@,
            args.checkout_path@,
            outcome@,
            args.panes_closed as nat,
        ),
        report.line@ == removal::report_text(outcome@),
{
    Report {
        notification: notification(
            args.label.as_str(),
            args.checkout_path.as_str(),
            outcome,
            args.panes_closed,
        ),
        line: report_line(outcome),
    }
}

/// A removal goes one step at a time and never skips one: the checkout is removed first; where git
/// refused that, it ends refused in git's words; where the branch was not to go, it ends there; and
/// else the branch is deleted, or kept in git's words. It counts as removed only where git removed
/// the checkout.
pub proof fn law_removal_goes_step_by_step(
    removed: Option<Result<(), Seq<char>>>,
    delete_branch: bool,
    deleted: Option<Result<(), Seq<char>>>,
    words: Seq<char>,
)
    ensures
        next_of(None, delete_branch, deleted) is RemoveWorktree,
        next_of(Some(Err(words)), delete_branch, deleted) == NextView::Finished(
            RemovalOutcomeView::Refused(words),
        ),
        next_of(Some(Ok(())), false, deleted) == NextView::Finished(RemovalOutcomeView::Removed),
        next_of(Some(Ok(())), true, None) is DeleteBranch,
        next_of(Some(Ok(())), true, Some(Ok(()))) == NextView::Finished(
            RemovalOutcomeView::Removed,
        ),
        next_of(Some(Ok(())), true, Some(Err(words))) == NextView::Finished(
            RemovalOutcomeView::BranchKept(words),
        ),
        next_of(removed, delete_branch, deleted) matches NextView::Finished(outcome) ==> (outcome
            is Refused) == (removed matches Some(Err(_))),
{
}

/// A command line names the repository, the checkout and the branch in this order. The branch goes
/// exactly where that is said behind them, and every word there is a count or says that.
pub proof fn law_command_line_is_read_as_it_names(args: Seq<Seq<char>>)
    ensures
        match read_of(args) {
            Ok(read) => {
                &&& args.len() >= 3
                &&& read.repo_root == args[0]
                &&& read.checkout_path == args[1]
                &&& read.label == args[2]
                &&& read.delete_branch <==> exists|i: int|
                    3 <= i < args.len() && (#[trigger] args[i]) == "delete-branch"@
                &&& forall|i: int|
                    3 <= i < args.len() ==> (#[trigger] args[i]) == "delete-branch"@
                        || text::number(args[i], usize::MAX as nat) is Some
                &&& args.len() == 3 ==> read.panes_closed == 0
                &&& args.len() > 3 ==> (text::number(args.last(), usize::MAX as nat) matches Some(n)
                    ==> read.panes_closed == n)
            },
            Err(words) => args.len() < 3 || exists|i: int|
                3 <= i < args.len() && (#[trigger] args[i]) != "delete-branch"@ && text::number(
                    args[i],
                    usize::MAX as nat,
                ) is None,
        },
{
    if args.len() >= 3 {
        let tokens = args.skip(3);
        lemma_tail(tokens);
        match tail_of(tokens) {
            Ok((count, flag)) => {
                if flag {
                    let k = choose|k: int|
                        0 <= k < tokens.len() && (#[trigger] tokens[k]) == "delete-branch"@;
                    assert(args[k + 3] == "delete-branch"@);
                }
                assert forall|i: int| 3 <= i < args.len() implies (#[trigger] args[i])
                    == "delete-branch"@ || text::number(args[i], usize::MAX as nat) is Some by {
                    assert(tokens[i - 3] == args[i]);
                }
                if exists|i: int| 3 <= i < args.len() && (#[trigger] args[i]) == "delete-branch"@ {
                    let i = choose|i: int|
                        3 <= i < args.len() && (#[trigger] args[i]) == "delete-branch"@;
                    assert(tokens[i - 3] == "delete-branch"@);
                }
            },
            Err(_) => {
                let k = choose|k: int|
                    0 <= k < tokens.len() && (#[trigger] tokens[k]) != "delete-branch"@
                        && text::number(tokens[k], usize::MAX as nat) is None;
                assert(args[k + 3] == tokens[k]);
            },
        }
    }
}

proof fn lemma_tail(tokens: Seq<Seq<char>>)
    ensures
        match tail_of(tokens) {
            Ok((count, flag)) => {
                &&& flag <==> exists|i: int|
                    0 <= i < tokens.len() && (#[trigger] tokens[i]) == "delete-branch"@
                &&& forall|i: int|
                    0 <= i < tokens.len() ==> (#[trigger] tokens[i]) == "delete-branch"@
                        || text::number(tokens[i], usize::MAX as nat) is Some
                &&& tokens.len() == 0 ==> count == 0
                &&& tokens.len() > 0 ==> (text::number(tokens.last(), usize::MAX as nat) matches Some(
                    n,
                ) ==> count == n)
            },
            Err(_) => exists|i: int|
                0 <= i < tokens.len() && (#[trigger] tokens[i]) != "delete-branch"@
                    && text::number(tokens[i], usize::MAX as nat) is None,
        },
    decreases tokens.len(),
{
    if tokens.len() > 0 {
        let front = tokens.drop_last();
        lemma_tail(front);
        reveal_strlit("delete-branch");
        let flag = "delete-branch"@;
        assert(text::number(flag, usize::MAX as nat) is None) by {
            assert(!text::is_digit(flag[0]));
        }
        assert(tokens[tokens.len() - 1] == tokens.last());
        match tail_of(front) {
            Ok((count, had)) => {
                if had {
                    let k = choose|k: int| 0 <= k < front.len() && (#[trigger] front[k]) == flag;
                    assert(tokens[k] == flag);
                }
                assert forall|i: int|
                    0 <= i < tokens.len() - 1 implies (#[trigger] tokens[i]) == front[i] by {}
                if exists|i: int| 0 <= i < tokens.len() && (#[trigger] tokens[i]) == flag {
                    let i = choose|i: int| 0 <= i < tokens.len() && (#[trigger] tokens[i]) == flag;
                    if i < front.len() {
                        assert(front[i] == flag);
                    }
                }
                if tail_of(tokens) is Ok {
                    assert forall|i: int| 0 <= i < tokens.len() implies (#[trigger] tokens[i])
                        == flag || text::number(tokens[i], usize::MAX as nat) is Some by {
                        if i < front.len() {
                            assert(front[i] == tokens[i]);
                        }
                    }
                }
            },
            Err(_) => {
                let k = choose|k: int|
                    0 <= k < front.len() && (#[trigger] front[k]) != flag && text::number(
                        front[k],
                        usize::MAX as nat,
                    ) is None;
                assert(tokens[k] == front[k]);
            },
        }
    }
}

/// A command line that names too little is told as such. Of the words behind the branch the first
/// that is neither a count nor the flag is named, whatever stands behind it.
pub proof fn law_first_word_not_understood_is_named(args: Seq<Seq<char>>, i: int)
    requires
        3 <= i < args.len(),
        args[i] != "delete-branch"@,
        text::number(args[i], usize::MAX as nat) is None,
        forall|j: int|
            3 <= j < i ==> (#[trigger] args[j]) == "delete-branch"@ || text::number(
                args[j],
                usize::MAX as nat,
            ) is Some,
    ensures
        read_of(args) == Err::<ArgsView, Seq<char>>(
            "`remove` does not understand `"@ + args[i]
                + "`: after the branch come a pane count, `delete-branch`, or nothing"@,
        ),
        read_of(args.take(2)) == Err::<ArgsView, Seq<char>>(
            "`remove` needs a repository root, a checkout path, and a branch name"@,
        ),
{
    let tokens = args.skip(3);
    let at = i - 3;
    let front = tokens.take(at);
    assert forall|j: int| 0 <= j < front.len() implies (#[trigger] front[j]) == "delete-branch"@
        || text::number(front[j], usize::MAX as nat) is Some by {
        assert(front[j] == args[j + 3]);
    }
    lemma_understood(front);
    assert(tokens.take(at + 1).drop_last() =~= front);
    assert(tokens.take(at + 1).last() == args[i]);
    lemma_tail_fails(tokens, at + 1);
}

proof fn lemma_understood(tokens: Seq<Seq<char>>)
    requires
        forall|j: int|
            0 <= j < tokens.len() ==> (#[trigger] tokens[j]) == "delete-branch"@ || text::number(
                tokens[j],
                usize::MAX as nat,
            ) is Some,
    ensures
        tail_of(tokens) is Ok,
    decreases tokens.len(),
{
    if tokens.len() > 0 {
        let front = tokens.drop_last();
        assert forall|j: int| 0 <= j < front.len() implies (#[trigger] front[j])
            == "delete-branch"@ || text::number(front[j], usize::MAX as nat) is Some by {
            assert(front[j] == tokens[j]);
        }
        lemma_understood(front);
        assert(tokens.last() == tokens[tokens.len() - 1]);
    }
}

} // verus!
