//! Removals in a process of their own: the command line that starts one, and the reading of what
//! it left behind.

use vstd::prelude::*;

use crate::git_cli;
use crate::git_cli::lossy_text;
use crate::port::{RemovalOutcome, RemovalOutcomeView};
use crate::remove;
use crate::remove::Args;
use crate::removal;
use crate::removal::parse_report;
use crate::shapes;
use crate::text;
use crate::text::{chars_of, decimal_text, lines_of, trimmed_text};

verus! {

/// The arguments that tell the process of a removal what to do. A count of no panes is left out.
pub open spec fn removal_arguments(args: remove::ArgsView) -> Seq<Seq<char>> {
    let named = seq!["remove"@, args.repo_root, args.checkout_path, args.label];
    let counted = if args.panes_closed > 0 {
        named.push(text::decimal(args.panes_closed))
    } else {
        named
    };
    if args.delete_branch {
        counted.push("delete-branch"@)
    } else {
        counted
    }
}

/// The first outcome that one of the lines reports.
pub open spec fn first_report(all: Seq<Seq<char>>) -> Option<RemovalOutcomeView>
    decreases all.len(),
{
    if all.len() == 0 {
        None
    } else {
        match removal::reported(all[0]) {
            Some(outcome) => Some(outcome),
            None => first_report(all.skip(1)),
        }
    }
}

/// What a process that removed `label` left behind: the outcome that it reported, or the words
/// for a process that ended without a report.
pub open spec fn left_behind(label: Seq<char>, stdout: Seq<char>, stderr: Seq<char>) -> Result<
    RemovalOutcomeView,
    Seq<char>,
> {
    match first_report(text::lines(stdout)) {
        Some(outcome) => Ok(outcome),
        None => {
            let said = text::trim(stderr);
            let words = "the removal of "@ + label + " ended without saying what happened"@;
            if said.len() == 0 {
                Err(words)
            } else {
                Err(words + ": "@ + said)
            }
        },
    }
}

/// Removals that outlive the process that starts them.
pub struct DetachedRemovals;

impl DetachedRemovals {
    /// The arguments that start a removal.
    pub fn start(args: &Args) -> (out: Vec<String>)
        ensures
            text::texts(out@) == removal_arguments(args@),
    {
        let mut out: Vec<String> = Vec::new();
        out.push("remove".to_owned());
        out.push(args.repo_root.clone());
        out.push(args.checkout_path.clone());
        out.push(args.label.clone());
        if args.panes_closed > 0 {
            out.push(decimal_text(args.panes_closed as u64));
        }
        if args.delete_branch {
            out.push("delete-branch".to_owned());
        }
        assert(text::texts(out@) =~= removal_arguments(args@));
        out
    }

    /// What the process that removed `label` reported, from its two outputs.
    pub fn wait(label: &str, stdout: &[u8], stderr: &[u8]) -> (result: Result<
        RemovalOutcome,
        String,
    >)
        ensures
            shapes::outcome(result) == left_behind(
                label@,
                git_cli::lossy(stdout@),
                git_cli::lossy(stderr@),
            ),
    {
        let reported = lossy_text(stdout);
        let said = lossy_text(stderr);
        wait_text(label, reported.as_str(), said.as_str())
    }
}

/// What the process that removed `label` reported, from the text of its two outputs.
pub fn wait_text(label: &str, stdout: &str, stderr: &str) -> (result: Result<
    RemovalOutcome,
    String,
>)
    ensures
        shapes::outcome(result) == left_behind(label@, stdout@, stderr@),
{
    let cs = chars_of(stdout);
    let all = lines_of(cs.as_slice());
    let mut i: usize = 0;
    assert(text::pieces(all@).skip(0) =~= text::pieces(all@));
    while i < all.len()
        invariant
            i <= all@.len(),
            text::pieces(all@) == text::lines(stdout@),
            first_report(text::pieces(all@).skip(i as int)) == first_report(text::pieces(all@)),
        decreases all@.len() - i,
    {
        assert(text::pieces(all@).skip(i as int)[0] == all@[i as int]@);
        match parse_report(all[i]) {
            Some(outcome) => {
                return Ok(outcome);
            },
            None => {},
        }
        assert(text::pieces(all@).skip(i as int).skip(1) =~= text::pieces(all@).skip(i + 1));
        i = i + 1;
    }
    let mut words = "the removal of ".to_owned();
    words.append(label);
    words.append(" ended without saying what happened");
    let said = trimmed_text(stderr);
    if !said.as_str().is_empty() {
        words.append(": ");
        words.append(said.as_str());
    }
    Err(words)
}

/// What a removal reports reaches the process that waits for it, with its words on one line.
pub proof fn law_report_reaches_the_waiter(
    label: Seq<char>,
    outcome: RemovalOutcomeView,
    stderr: Seq<char>,
)
    ensures
        left_behind(label, removal::report_text(outcome).push('\n'), stderr) == Ok::<
            _,
            Seq<char>,
        >(removal::folded_outcome(outcome)),
{
    let line = removal::report_text(outcome);
    removal::lemma_report_is_one_line(outcome);
    text::lemma_one_line_reads_back(line);
    removal::law_report_reads_back(outcome);
    assert(text::lines(line.push('\n'))[0] == line);
}

/// What a removal is started with is what its process reads.
pub proof fn law_arguments_read_back(args: remove::ArgsView)
    requires
        args.panes_closed <= usize::MAX,
    ensures
        remove::read_of(removal_arguments(args).skip(1)) == Ok::<_, Seq<char>>(args),
{
    let all = removal_arguments(args).skip(1);
    assert(all[0] == args.repo_root);
    assert(all[1] == args.checkout_path);
    assert(all[2] == args.label);
    let tokens = all.skip(3);
    text::lemma_decimal_reads_back(args.panes_closed, usize::MAX as nat);
    reveal_strlit("delete-branch");
    let flag = "delete-branch"@;
    assert(text::number(flag, usize::MAX as nat) is None) by {
        assert(!text::is_digit(flag[0]));
    }
    assert(remove::tail_of(seq![]) == Ok::<_, Seq<char>>((0nat, false)));
    let counted = seq![text::decimal(args.panes_closed)];
    assert(counted.drop_last() =~= seq![]);
    assert(remove::tail_of(counted) == Ok::<_, Seq<char>>((args.panes_closed, false)));
    if args.panes_closed > 0 && args.delete_branch {
        assert(tokens =~= counted.push(flag));
        assert(tokens.drop_last() =~= counted);
        assert(tokens.last() == flag);
    } else if args.panes_closed > 0 {
        assert(tokens =~= counted);
    } else if args.delete_branch {
        assert(tokens =~= seq![flag]);
        assert(tokens.drop_last() =~= seq![]);
    } else {
        assert(tokens =~= seq![]);
    }
}

/// A removal is told of what its process reported, whatever else that printed: the first line that
/// is a report counts. It is told in the process's own words that nothing was reported only where
/// no line is one.
pub proof fn law_the_first_report_counts(
    one: Seq<Seq<char>>,
    other: Seq<Seq<char>>,
    label: Seq<char>,
    stdout: Seq<char>,
    stderr: Seq<char>,
)
    ensures
        first_report(one + other) == match first_report(one) {
            Some(outcome) => Some(outcome),
            None => first_report(other),
        },
        left_behind(label, stdout, stderr) is Err <==> forall|i: int|
            0 <= i < text::lines(stdout).len() ==> removal::reported(
                #[trigger] text::lines(stdout)[i],
            ) is None,
        left_behind(label, stdout, stderr) matches Ok(outcome) ==> exists|i: int|
            0 <= i < text::lines(stdout).len() && removal::reported(
                #[trigger] text::lines(stdout)[i],
            ) == Some(outcome),
        left_behind(label, stdout, stderr) matches Err(words) ==> ("the removal of "@ + label
            + " ended without saying what happened"@).is_prefix_of(words),
{
    lemma_first_report_parts(one, other);
    lemma_first_report(text::lines(stdout));
    let front = "the removal of "@ + label + " ended without saying what happened"@;
    let said = text::trim(stderr);
    assert((front + ": "@ + said).subrange(0, front.len() as int) =~= front);
    assert(front.subrange(0, front.len() as int) =~= front);
}

proof fn lemma_first_report_parts(one: Seq<Seq<char>>, other: Seq<Seq<char>>)
    ensures
        first_report(one + other) == match first_report(one) {
            Some(outcome) => Some(outcome),
            None => first_report(other),
        },
    decreases one.len(),
{
    if one.len() == 0 {
        assert(one + other =~= other);
    } else {
        assert((one + other)[0] == one[0]);
        assert((one + other).skip(1) =~= one.skip(1) + other);
        lemma_first_report_parts(one.skip(1), other);
    }
}

proof fn lemma_first_report(all: Seq<Seq<char>>)
    ensures
        match first_report(all) {
            Some(outcome) => exists|i: int|
                0 <= i < all.len() && removal::reported(#[trigger] all[i]) == Some(outcome),
            None => forall|i: int|
                0 <= i < all.len() ==> removal::reported(#[trigger] all[i]) is None,
        },
    decreases all.len(),
{
    if all.len() > 0 {
        let rest = all.skip(1);
        lemma_first_report(rest);
        match removal::reported(all[0]) {
            Some(outcome) => {},
            None => match first_report(rest) {
                Some(outcome) => {
                    let i = choose|i: int|
                        0 <= i < rest.len() && removal::reported(#[trigger] rest[i]) == Some(
                            outcome,
                        );
                    assert(all[i + 1] == rest[i]);
                },
                None => {
                    assert forall|i: int| 0 <= i < all.len() implies removal::reported(
                        #[trigger] all[i],
                    ) is None by {
                        if i > 0 {
                            assert(rest[i - 1] == all[i]);
                        }
                    }
                },
            },
        }
    }
}

/// A removal is started with the checkout, the repository and the branch that it is of, and its
/// process is told to delete the branch only where it is to.
pub proof fn law_removal_is_started_as_asked(args: remove::ArgsView)
    ensures
        ({
            let all = removal_arguments(args);
            &&& all.len() >= 4 && all[0] == "remove"@ && all[1] == args.repo_root && all[2]
                == args.checkout_path && all[3] == args.label
            &&& args.panes_closed > 0 ==> all[4] == text::decimal(args.panes_closed)
            &&& args.delete_branch <==> all.len() > 4 && all.last() == "delete-branch"@
            &&& all.len() == 4 + (if args.panes_closed > 0 { 1int } else { 0 }) + (
            if args.delete_branch { 1int } else { 0 })
        }),
{
    let all = removal_arguments(args);
    if !args.delete_branch && args.panes_closed > 0 {
        assert(all.last() == text::decimal(args.panes_closed));
        reveal_strlit("delete-branch");
        text::lemma_decimal(args.panes_closed);
        assert(text::is_digit(text::decimal(args.panes_closed)[0]));
        assert("delete-branch"@[0] == 'd');
    }
}

} // verus!
