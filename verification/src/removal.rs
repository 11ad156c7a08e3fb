//! What a removal is said with: on the prompt line, in a notification, and between the process
//! that removes and the one that started it.

use vstd::prelude::*;

use crate::port::{
    Notification, NotificationSound, NotificationView, RemovalOutcome, RemovalOutcomeView,
};
use crate::shapes;
use crate::text;
use crate::text::{after_prefix, decimal_text, folded, spells, text_of};

verus! {

/// What is said of the panes that were closed for a removal; nothing where there were none.
pub open spec fn closed_first(panes_closed: nat) -> Seq<char> {
    if panes_closed == 0 {
        seq![]
    } else if panes_closed == 1 {
        " — its 1 pane was closed first"@
    } else {
        " — its "@ + text::decimal(panes_closed) + " panes were closed first"@
    }
}

/// The words of a refusal, and what is said of the panes that were closed for it.
pub open spec fn refusal_text(words: Seq<char>, panes_closed: nat) -> Seq<char> {
    words + closed_first(panes_closed)
}

/// The words of a refusal, and what is said of the panes that were closed for it.
pub fn refusal(words: &str, panes_closed: usize) -> (out: String)
    ensures
        out@ == refusal_text(words@, panes_closed as nat),
{
    let mut out = words.to_owned();
    if panes_closed == 0 {
    } else if panes_closed == 1 {
        out.append(" — its 1 pane was closed first");
    } else {
        out.append(" — its ");
        out.append(decimal_text(panes_closed as u64).as_str());
        out.append(" panes were closed first");
    }
    assert(out@ =~= refusal_text(words@, panes_closed as nat));
    out
}

/// What the prompt line says of a removal that ended; one that went well has nothing to say.
pub open spec fn message_text(
    label: Seq<char>,
    outcome: RemovalOutcomeView,
    panes_closed: nat,
) -> Option<Seq<char>> {
    match outcome {
        RemovalOutcomeView::Removed => None,
        RemovalOutcomeView::Refused(words) => Some(
            "could not remove "@ + label + ": "@ + refusal_text(words, panes_closed),
        ),
        RemovalOutcomeView::BranchKept(words) => Some(
            "removed "@ + label + ", branch kept: "@ + words,
        ),
    }
}

/// What the prompt line says of a removal that ended.
pub fn message(label: &str, outcome: &RemovalOutcome, panes_closed: usize) -> (said: Option<String>)
    ensures
        shapes::opt(said) == message_text(label@, outcome@, panes_closed as nat),
{
    match outcome {
        RemovalOutcome::Removed => None,
        RemovalOutcome::Refused(words) => {
            let mut out = "could not remove ".to_owned();
            out.append(label);
            out.append(": ");
            out.append(refusal(words.as_str(), panes_closed).as_str());
            Some(out)
        },
        RemovalOutcome::BranchKept(words) => {
            let mut out = "removed ".to_owned();
            out.append(label);
            out.append(", branch kept: ");
            out.append(words.as_str());
            Some(out)
        },
    }
}

/// What is said of the panes that a removal closed before one of them would not close.
pub open spec fn partly_closed(closed: nat, total: nat) -> Seq<char> {
    if closed == 0 {
        "none of its "@ + text::decimal(total) + " panes were closed"@
    } else if closed == 1 {
        "1 of its "@ + text::decimal(total) + " panes was closed first"@
    } else {
        text::decimal(closed) + " of its "@ + text::decimal(total) + " panes were closed first"@
    }
}

/// What is said of a removal that a pane stopped.
pub open spec fn interrupted_text(
    pane_id: Seq<char>,
    words: Seq<char>,
    closed: nat,
    total: nat,
) -> Seq<char> {
    "could not close "@ + pane_id + ": "@ + words + " — "@ + partly_closed(closed, total)
        + ", and the checkout was not removed"@
}

/// What is said of a removal that a pane stopped.
pub fn interrupted(pane_id: &str, words: &str, closed: usize, total: usize) -> (out: String)
    ensures
        out@ == interrupted_text(pane_id@, words@, closed as nat, total as nat),
{
    let mut out = "could not close ".to_owned();
    out.append(pane_id);
    out.append(": ");
    out.append(words);
    out.append(" — ");
    if closed == 0 {
        out.append("none of its ");
        out.append(decimal_text(total as u64).as_str());
        out.append(" panes were closed");
    } else if closed == 1 {
        out.append("1 of its ");
        out.append(decimal_text(total as u64).as_str());
        out.append(" panes was closed first");
    } else {
        out.append(decimal_text(closed as u64).as_str());
        out.append(" of its ");
        out.append(decimal_text(total as u64).as_str());
        out.append(" panes were closed first");
    }
    out.append(", and the checkout was not removed");
    assert(out@ =~= interrupted_text(pane_id@, words@, closed as nat, total as nat));
    out
}

/// What is said of a removal that could not be started.
pub open spec fn not_started_text(label: Seq<char>, words: Seq<char>) -> Seq<char> {
    "could not start removing "@ + label + ": "@ + words
}

/// What is said of a removal that could not be started.
pub fn not_started(label: &str, words: &str) -> (out: String)
    ensures
        out@ == not_started_text(label@, words@),
{
    let mut out = "could not start removing ".to_owned();
    out.append(label);
    out.append(": ");
    out.append(words);
    out
}

/// The notification of a removal that ended: what happened in its title, and in its body where,
/// or why.
pub open spec fn notification_of(
    label: Seq<char>,
    checkout_path: Seq<char>,
    outcome: RemovalOutcomeView,
    panes_closed: nat,
) -> NotificationView {
    match outcome {
        RemovalOutcomeView::Removed => NotificationView {
            title: "removed "@ + label,
            body: Some(checkout_path),
            sound: NotificationSound::Silent,
        },
        RemovalOutcomeView::Refused(words) => NotificationView {
            title: "could not remove "@ + label,
            body: Some(refusal_text(words, panes_closed)),
            sound: NotificationSound::Request,
        },
        RemovalOutcomeView::BranchKept(words) => NotificationView {
            title: "removed "@ + label + ", branch kept"@,
            body: Some(words),
            sound: NotificationSound::Silent,
        },
    }
}

/// The notification of a removal that ended.
pub fn notification(
    label: &str,
    checkout_path: &str,
    outcome: &RemovalOutcome,
    panes_closed: usize,
) -> (shown: Notification)
    ensures
        shown@ == notification_of(label@, checkout_path@, outcome@, panes_closed as nat),
{
    match outcome {
        RemovalOutcome::Removed => {
            let mut title = "removed ".to_owned();
            title.append(label);
            Notification {
                title,
                body: Some(checkout_path.to_owned()),
                sound: NotificationSound::Silent,
            }
        },
        RemovalOutcome::Refused(words) => {
            let mut title = "could not remove ".to_owned();
            title.append(label);
            Notification {
                title,
                body: Some(refusal(words.as_str(), panes_closed)),
                sound: NotificationSound::Request,
            }
        },
        RemovalOutcome::BranchKept(words) => {
            let mut title = "removed ".to_owned();
            title.append(label);
            title.append(", branch kept");
            Notification { title, body: Some(words.clone()), sound: NotificationSound::Silent }
        },
    }
}

// ---------------------------------------------------------------- the report line

/// The line that reports an outcome to the process that started the removal.
pub open spec fn report_text(outcome: RemovalOutcomeView) -> Seq<char> {
    match outcome {
        RemovalOutcomeView::Removed => "removed"@,
        RemovalOutcomeView::Refused(words) => "refused "@ + text::one_line(words),
        RemovalOutcomeView::BranchKept(words) => "kept "@ + text::one_line(words),
    }
}

/// The line that reports an outcome.
pub fn report_line(outcome: &RemovalOutcome) -> (line: String)
    ensures
        line@ == report_text(outcome@),
{
    match outcome {
        RemovalOutcome::Removed => "removed".to_owned(),
        RemovalOutcome::Refused(words) => {
            let mut line = "refused ".to_owned();
            line.append(folded(words.as_str()).as_str());
            line
        },
        RemovalOutcome::BranchKept(words) => {
            let mut line = "kept ".to_owned();
            line.append(folded(words.as_str()).as_str());
            line
        },
    }
}

/// The outcome that a line reports, where it reports one.
pub open spec fn reported(line: Seq<char>) -> Option<RemovalOutcomeView> {
    if line == "removed"@ {
        Some(RemovalOutcomeView::Removed)
    } else {
        match text::strip_prefix(line, "refused "@) {
            Some(words) => Some(RemovalOutcomeView::Refused(words)),
            None => match text::strip_prefix(line, "kept "@) {
                Some(words) => Some(RemovalOutcomeView::BranchKept(words)),
                None => None,
            },
        }
    }
}

/// The outcome that a line reports, where it reports one.
pub fn parse_report(line: &[char]) -> (outcome: Option<RemovalOutcome>)
    ensures
        shapes::opt(outcome) == reported(line@),
{
    if spells(line, "removed") {
        return Some(RemovalOutcome::Removed);
    }
    match after_prefix(line, "refused ") {
        Some(words) => Some(RemovalOutcome::Refused(text_of(words))),
        None => match after_prefix(line, "kept ") {
            Some(words) => Some(RemovalOutcome::BranchKept(text_of(words))),
            None => None,
        },
    }
}

/// An outcome with its words folded onto one line.
pub open spec fn folded_outcome(outcome: RemovalOutcomeView) -> RemovalOutcomeView {
    match outcome {
        RemovalOutcomeView::Removed => RemovalOutcomeView::Removed,
        RemovalOutcomeView::Refused(words) => RemovalOutcomeView::Refused(text::one_line(words)),
        RemovalOutcomeView::BranchKept(words) => RemovalOutcomeView::BranchKept(
            text::one_line(words),
        ),
    }
}

/// Reading a report line gives back the outcome that it was written for, with its words on one
/// line.
pub proof fn law_report_reads_back(outcome: RemovalOutcomeView)
    ensures
        reported(report_text(outcome)) == Some(folded_outcome(outcome)),
{
    reveal_strlit("removed");
    reveal_strlit("refused ");
    reveal_strlit("kept ");
    match outcome {
        RemovalOutcomeView::Removed => {},
        RemovalOutcomeView::Refused(words) => {
            let line = "refused "@ + text::one_line(words);
            assert(line[2] == 'f');
            assert("removed"@[2] == 'm');
            assert("refused "@.is_prefix_of(line));
            assert(line.skip("refused "@.len() as int) =~= text::one_line(words));
        },
        RemovalOutcomeView::BranchKept(words) => {
            let line = "kept "@ + text::one_line(words);
            assert(line[0] == 'k');
            assert("removed"@[0] == 'r');
            assert(!"refused "@.is_prefix_of(line)) by {
                if "refused "@.is_prefix_of(line) {
                    assert("refused "@[0] == line[0]);
                }
            }
            assert("kept "@.is_prefix_of(line));
            assert(line.skip("kept "@.len() as int) =~= text::one_line(words));
        },
    }
}

/// A report is one line that does not end in a carriage return.
pub proof fn lemma_report_is_one_line(outcome: RemovalOutcomeView)
    ensures
        text::lacks(report_text(outcome), '\n'),
        report_text(outcome).len() > 0,
        report_text(outcome).last() != '\r',
{
    reveal_strlit("removed");
    reveal_strlit("refused ");
    reveal_strlit("kept ");
    match outcome {
        RemovalOutcomeView::Removed => {},
        RemovalOutcomeView::Refused(words) => {
            text::law_folded_is_one_line(words);
        },
        RemovalOutcomeView::BranchKept(words) => {
            text::law_folded_is_one_line(words);
        },
    }
}

/// What refused comes out in its own words, and the panes that were closed for it are told by their
/// number, where there were any.
pub proof fn law_refusal_keeps_its_words(label: Seq<char>, words: Seq<char>, panes: nat)
    ensures
        refusal_text(words, 0) == words,
        refusal_text(words, 1) == words + " — its 1 pane was closed first"@,
        panes >= 2 ==> refusal_text(words, panes) == words + " — its "@ + text::decimal(panes)
            + " panes were closed first"@,
        message_text(label, RemovalOutcomeView::Refused(words), panes) == Some(
            "could not remove "@ + label + ": "@ + refusal_text(words, panes),
        ),
        message_text(label, RemovalOutcomeView::BranchKept(words), panes) == Some(
            "removed "@ + label + ", branch kept: "@ + words,
        ),
        message_text(label, RemovalOutcomeView::Removed, panes) is None,
{
    assert(refusal_text(words, 0) =~= words);
    if panes >= 2 {
        assert(refusal_text(words, panes) =~= words + " — its "@ + text::decimal(panes)
            + " panes were closed first"@);
    }
}

/// Only a removal that was refused asks for attention. Each notification names what it is about in
/// its title, and says in its body where that was, or in git's own words why.
pub proof fn law_only_a_refusal_asks_for_attention(
    label: Seq<char>,
    checkout_path: Seq<char>,
    outcome: RemovalOutcomeView,
    panes: nat,
)
    ensures
        ({
            let shown = notification_of(label, checkout_path, outcome, panes);
            &&& shown.sound == NotificationSound::Request <==> outcome is Refused
            &&& outcome is Removed ==> shown.title == "removed "@ + label && shown.body == Some(
                checkout_path,
            )
            &&& outcome matches RemovalOutcomeView::Refused(words) ==> shown.title
                == "could not remove "@ + label && shown.body == Some(refusal_text(words, panes))
            &&& outcome matches RemovalOutcomeView::BranchKept(words) ==> shown.title == "removed "@
                + label + ", branch kept"@ && shown.body == Some(words)
        }),
{
}

/// A line reports an outcome only in the words that such a report is written in: nothing else that
/// a process prints is taken for one.
pub proof fn law_only_a_report_is_read_as_one(line: Seq<char>)
    ensures
        match reported(line) {
            Some(RemovalOutcomeView::Removed) => line == "removed"@,
            Some(RemovalOutcomeView::Refused(words)) => line == "refused "@ + words,
            Some(RemovalOutcomeView::BranchKept(words)) => line == "kept "@ + words,
            None => line != "removed"@ && !"refused "@.is_prefix_of(line) && !"kept "@.is_prefix_of(
                line,
            ),
        },
{
    match text::strip_prefix(line, "refused "@) {
        Some(words) => {
            assert(line =~= "refused "@ + words);
        },
        None => match text::strip_prefix(line, "kept "@) {
            Some(words) => {
                assert(line =~= "kept "@ + words);
            },
            None => {},
        },
    }
}

/// What is said of a removal that a pane stopped names the pane, gives the words it refused in, and
/// counts what was closed before it.
pub proof fn law_interrupted_counts_what_was_closed(
    pane_id: Seq<char>,
    words: Seq<char>,
    closed: nat,
    total: nat,
)
    ensures
        ({
            let front = "could not close "@ + pane_id + ": "@ + words + " — "@;
            let end = ", and the checkout was not removed"@;
            &&& interrupted_text(pane_id, words, 0, total) == front + ("none of its "@
                + text::decimal(total) + " panes were closed"@) + end
            &&& interrupted_text(pane_id, words, 1, total) == front + ("1 of its "@ + text::decimal(
                total,
            ) + " panes was closed first"@) + end
            &&& closed >= 2 ==> interrupted_text(pane_id, words, closed, total) == front + (
            text::decimal(closed) + " of its "@ + text::decimal(total)
                + " panes were closed first"@) + end
        }),
{
}

/// What is said of a removal that could not be started names it and says why.
pub proof fn law_removal_not_started_is_told(label: Seq<char>, words: Seq<char>)
    ensures
        not_started_text(label, words) == "could not start removing "@ + label + ": "@ + words,
{
}

} // verus!
