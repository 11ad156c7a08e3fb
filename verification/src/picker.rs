//! The two pickers: what they are opened with, and how one leads to the other.

use vstd::prelude::*;

use crate::branches;
use crate::dirty::Dirty;
use crate::panes;
use crate::settled::Settled;
use crate::shapes;
use crate::text::copied;

verus! {

/// The questions that outlive a visit to either picker.
pub struct Pending {
    pub dirty: Dirty,
    pub settled: Settled,
}

/// Which picker is shown.
#[derive(Debug, Clone, Copy, PartialEq, Eq, Structural)]
pub enum Entrypoint {
    Panes,
    Branches,
}

/// Where the pickers were called from.
#[derive(Debug, Clone, PartialEq, Eq)]
pub struct Summoned {
    pub pane: Option<String>,
    pub repo_root: Option<String>,
}

/// What a variable says, where it says anything.
pub open spec fn said(value: Option<Seq<char>>) -> Option<Seq<char>> {
    match value {
        Some(text) => if text.len() == 0 {
            None
        } else {
            Some(text)
        },
        None => None,
    }
}

fn said_by(value: Option<String>) -> (said_text: Option<String>)
    ensures
        shapes::opt(said_text) == said(shapes::opt(value)),
{
    match value {
        Some(text) => if text.as_str().is_empty() {
            None
        } else {
            Some(text)
        },
        None => None,
    }
}

/// Where the pickers were called from: the pane and the repository that the variables name, and in
/// the place of a repository that they do not name the checkout that git found.
pub fn summoned(from_pane: Option<String>, repo_root: Option<String>, identified: Option<String>) -> (
    summoned: Summoned)
    ensures
        shapes::opt(summoned.pane) == said(shapes::opt(from_pane)),
        shapes::opt(summoned.repo_root) == match said(shapes::opt(repo_root)) {
            Some(root) => Some(root),
            None => shapes::opt(identified),
        },
{
    let pane = said_by(from_pane);
    let repo_root = match said_by(repo_root) {
        Some(root) => Some(root),
        None => identified,
    };
    Summoned { pane, repo_root }
}

/// How a picker ended.
pub enum Left {
    Panes(panes::Exit),
    Branches(branches::Exit),
}

/// What one picker hands to the next: where they were called from, whether checkouts without panes
/// are listed, and what is still to be said of the configuration.
#[derive(Debug, Clone, PartialEq, Eq)]
pub struct Carried {
    pub summoned: Summoned,
    pub show_worktrees_without_panes: bool,
    pub complaint: Option<String>,
}

/// The picker that is shown next, and what it is handed; none where the last one was closed. The
/// panes picker hands on the repository that it was on, and whether it listed checkouts without
/// panes.
pub fn views(left: Left, carried: Carried) -> (next: (Option<Entrypoint>, Carried))
    ensures
        match left {
            Left::Branches(branches::Exit::Closed) => next.0 is None && next.1 == carried,
            Left::Branches(branches::Exit::ShowPanes) => next.0 == Some(Entrypoint::Panes)
                && next.1 == carried,
            Left::Panes(panes::Exit::Closed) => next.0 is None && next.1 == carried,
            Left::Panes(
                panes::Exit::ShowBranches { repo_root, show_worktrees_without_panes },
            ) => next.0 == Some(Entrypoint::Branches) && next.1 == (Carried {
                summoned: Summoned { pane: carried.summoned.pane, repo_root },
                show_worktrees_without_panes,
                complaint: carried.complaint,
            }),
        },
{
    match left {
        Left::Branches(branches::Exit::Closed) => (None, carried),
        Left::Branches(branches::Exit::ShowPanes) => (Some(Entrypoint::Panes), carried),
        Left::Panes(panes::Exit::Closed) => (None, carried),
        Left::Panes(panes::Exit::ShowBranches { repo_root, show_worktrees_without_panes }) => (
            Some(Entrypoint::Branches),
            Carried {
                summoned: Summoned { pane: carried.summoned.pane, repo_root },
                show_worktrees_without_panes,
                complaint: carried.complaint,
            },
        ),
    }
}

/// What the panes picker is opened with. What is to be said of the configuration is said once.
pub fn options(carried: &mut Carried) -> (options: panes::Options)
    ensures
        options.initial_pane == old(carried).summoned.pane,
        options.show_worktrees_without_panes == old(carried).show_worktrees_without_panes,
        options.config_complaint == old(carried).complaint,
        *final(carried) == (Carried { complaint: None, ..*old(carried) }),
{
    panes::Options {
        initial_pane: copied(&carried.summoned.pane),
        show_worktrees_without_panes: carried.show_worktrees_without_panes,
        config_complaint: carried.complaint.take(),
    }
}

/// A variable says what it holds, and says nothing where it holds nothing or is not set.
pub proof fn law_empty_variable_says_nothing(value: Seq<char>)
    ensures
        value.len() > 0 ==> said(Some(value)) == Some(value),
        value.len() == 0 ==> said(Some(value)) is None,
        said(None) is None,
{
}

} // verus!
