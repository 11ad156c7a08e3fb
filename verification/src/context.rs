//! Where the plugin was called from.

use vstd::prelude::*;

use crate::shapes;

verus! {

/// The variable that tells a picker which pane it was called from.
pub const FROM_PANE: &'static str = "GH_NAV_FROM_PANE";

/// The variable that tells a picker which repository it was called from.
pub const REPO_ROOT: &'static str = "GH_NAV_REPO_ROOT";

/// The checkout that the plugin was called from.
#[derive(Debug, Clone, PartialEq, Eq)]
pub struct ContextWorktree {
    pub repo_root: String,
    pub checkout_path: String,
}

/// Where the plugin was called from, as far as herdr says.
#[derive(Debug, Clone, PartialEq, Eq)]
pub struct Context {
    pub focused_pane_id: Option<String>,
    pub focused_pane_cwd: Option<String>,
    pub workspace_id: Option<String>,
    pub tab_id: Option<String>,
    pub worktree: Option<ContextWorktree>,
}

/// The directory that a context is in: its checkout where that is named, and else the directory of
/// its pane.
pub open spec fn directory(context: Context) -> Option<Seq<char>> {
    match context.worktree {
        Some(worktree) => if worktree.checkout_path@.len() > 0 {
            Some(worktree.checkout_path@)
        } else {
            shapes::opt(context.focused_pane_cwd)
        },
        None => shapes::opt(context.focused_pane_cwd),
    }
}

impl Default for Context {
    /// Called from nowhere that is known.
    fn default() -> (context: Context)
        ensures
            context == (Context {
                focused_pane_id: None,
                focused_pane_cwd: None,
                workspace_id: None,
                tab_id: None,
                worktree: None,
            }),
    {
        Context {
            focused_pane_id: None,
            focused_pane_cwd: None,
            workspace_id: None,
            tab_id: None,
            worktree: None,
        }
    }
}

impl Context {
    /// The directory that the plugin was called in.
    pub fn cwd(&self) -> (cwd: Option<&str>)
        ensures
            match cwd {
                Some(path) => directory(*self) == Some(path@),
                None => directory(*self) is None,
            },
    {
        match &self.worktree {
            Some(worktree) => {
                if !worktree.checkout_path.as_str().is_empty() {
                    return Some(worktree.checkout_path.as_str());
                }
            },
            None => {},
        }
        match &self.focused_pane_cwd {
            Some(path) => Some(path.as_str()),
            None => None,
        }
    }
}

/// A checkout that is named is where the plugin was called, whatever directory its pane is in; one
/// that is not named, or that there is none of, leaves the directory of the pane.
pub proof fn law_called_in_its_checkout(context: Context)
    ensures
        context.worktree matches Some(worktree) && worktree.checkout_path@.len() > 0 ==> directory(
            context,
        ) == Some(context.worktree->Some_0.checkout_path@),
        context.worktree is None || context.worktree->Some_0.checkout_path@.len() == 0
            ==> directory(context) == shapes::opt(context.focused_pane_cwd),
{
}

} // verus!
