//! Opening a picker: one that is open already is shown again, and else a new one is asked for.

use vstd::prelude::*;

use crate::context;
use crate::context::Context;
use crate::plugin_config;
use crate::port;
use crate::port::{PluginPaneOpen, PluginPaneOpenView, Snapshot};
use crate::shapes;
use crate::text;
use crate::text::{same, trimmed_text};

verus! {

/// The picker that an action opens.
pub open spec fn entrypoint_of(action_id: Seq<char>) -> Option<Seq<char>> {
    if action_id == "open-panes"@ {
        Some("panes"@)
    } else if action_id == "open-branches"@ {
        Some("branches"@)
    } else {
        None
    }
}

/// The pane that a picker was opened in last, by what was remembered of it; none where nothing
/// was.
pub open spec fn remembered_pane(remembered: Option<Seq<char>>) -> Option<Seq<char>> {
    match remembered {
        Some(text) => if text::trim(text).len() == 0 {
            None
        } else {
            Some(text::trim(text))
        },
        None => None,
    }
}

/// The pane that a picker was opened in last.
pub fn remembered(read: &Option<String>) -> (pane: Option<String>)
    ensures
        shapes::opt(pane) == remembered_pane(shapes::opt(*read)),
{
    match read {
        Some(text) => {
            let id = trimmed_text(text.as_str());
            if id.as_str().is_empty() {
                None
            } else {
                Some(id)
            }
        },
        None => None,
    }
}

/// The pane that a picker is open in, where the session still has it.
pub fn already_open(pane: Option<String>, snapshot: &Snapshot) -> (open: Option<String>)
    ensures
        open == match pane {
            Some(id) => if port::has_pane(snapshot@.panes, id@) {
                Some(id)
            } else {
                None
            },
            None => None,
        },
{
    match pane {
        Some(id) => if snapshot.has(id.as_str()) {
            Some(id)
        } else {
            None
        },
        None => None,
    }
}

/// What an action comes to.
pub enum Opening {
    /// Show this pane, which a picker is open in.
    Focus(String),
    /// Open a new one.
    Open(PluginPaneOpen),
}

/// What a new picker is told, which herdr tells nothing of where it was called from: the pane that
/// was, and the repository of its checkout.
pub open spec fn told(context: Context) -> Seq<(Seq<char>, Seq<char>)> {
    let from = match context.focused_pane_id {
        Some(id) => seq![(context::FROM_PANE@, id@)],
        None => seq![],
    };
    match context.worktree {
        Some(worktree) => from.push((context::REPO_ROOT@, worktree.repo_root@)),
        None => from,
    }
}

/// What an action comes to, where a picker is open already in `open`, and where not. An action
/// that is not known is an error.
pub fn run(action_id: &str, context: &Context, open: Option<String>) -> (result: Result<
    Opening,
    String,
>)
    ensures
        match (entrypoint_of(action_id@), result) {
            (None, Err(words)) => words@ == "unknown action `"@ + action_id@ + "`"@,
            (Some(entrypoint), Ok(Opening::Focus(pane))) => open == Some(pane),
            (Some(entrypoint), Ok(Opening::Open(request))) => {
                &&& open is None
                &&& request@ == (PluginPaneOpenView {
                    plugin_id: plugin_config::plugin_id(),
                    entrypoint,
                    placement: "overlay"@,
                    cwd: context::directory(*context),
                    env: told(*context),
                    focus: true,
                })
            },
            _ => false,
        },
{
    let entrypoint = if same(action_id, "open-panes") {
        "panes"
    } else if same(action_id, "open-branches") {
        "branches"
    } else {
        let mut words = "unknown action `".to_owned();
        words.append(action_id);
        words.append("`");
        return Err(words);
    };
    match open {
        Some(pane) => {
            return Ok(Opening::Focus(pane));
        },
        None => {},
    }
    let mut env: Vec<(String, String)> = Vec::new();
    match &context.focused_pane_id {
        Some(id) => {
            env.push((context::FROM_PANE.to_owned(), id.clone()));
        },
        None => {},
    }
    match &context.worktree {
        Some(worktree) => {
            env.push((context::REPO_ROOT.to_owned(), worktree.repo_root.clone()));
        },
        None => {},
    }
    assert(shapes::pairs(env@) =~= told(*context));
    let cwd = match context.cwd() {
        Some(path) => Some(path.to_owned()),
        None => None,
    };
    let request = PluginPaneOpen {
        plugin_id: "herdr-worktree-nav".to_owned(),
        entrypoint: entrypoint.to_owned(),
        placement: "overlay".to_owned(),
        cwd,
        env,
        focus: true,
    };
    Ok(Opening::Open(request))
}

/// The value that a variable has among those that are set; none where it is not.
pub open spec fn value_of(env: Seq<(Seq<char>, Seq<char>)>, name: Seq<char>) -> Option<Seq<char>>
    decreases env.len(),
{
    if env.len() == 0 {
        None
    } else if env.last().0 == name {
        Some(env.last().1)
    } else {
        value_of(env.drop_last(), name)
    }
}

/// A picker that an action opens reads in its variables the pane that the action was called from
/// and the repository of its checkout, where herdr told the action of them, and nothing else.
pub proof fn law_opened_picker_is_told(context: Context)
    ensures
        value_of(told(context), context::FROM_PANE@) == shapes::opt(context.focused_pane_id),
        value_of(told(context), context::REPO_ROOT@) == (match context.worktree {
            Some(worktree) => Some(worktree.repo_root@),
            None => None,
        }),
        forall|name: Seq<char>|
            name != context::FROM_PANE@ && name != context::REPO_ROOT@ ==> #[trigger] value_of(
                told(context),
                name,
            ) is None,
{
    reveal_with_fuel(value_of, 3);
    reveal_strlit("GH_NAV_FROM_PANE");
    reveal_strlit("GH_NAV_REPO_ROOT");
    assert(context::FROM_PANE@[7] != context::REPO_ROOT@[7]);
    match context.worktree {
        Some(worktree) => {
            let from = told(Context { worktree: None, ..context });
            assert(told(context).drop_last() =~= from);
        },
        None => {},
    }
    match context.focused_pane_id {
        Some(id) => {
            assert(told(Context { worktree: None, ..context }).drop_last() =~= seq![]);
        },
        None => {},
    }
}

/// The pane that is remembered is what was written of it without the white space round it, and
/// none where nothing else was written.
pub proof fn law_pane_is_remembered_as_written(
    before: Seq<char>,
    pane: Seq<char>,
    after: Seq<char>,
)
    requires
        forall|i: int| 0 <= i < before.len() ==> text::is_white(#[trigger] before[i]),
        forall|i: int| 0 <= i < after.len() ==> text::is_white(#[trigger] after[i]),
        pane.len() > 0,
        !text::is_white(pane[0]),
        !text::is_white(pane.last()),
    ensures
        remembered_pane(Some(before + pane + after)) == Some(pane),
        remembered_pane(Some(before)) is None,
        remembered_pane(None) is None,
{
    text::law_trim_finds_what_was_padded(before, pane, after);
    text::law_trim_finds_what_was_padded(before, seq![], seq![]);
    assert(before + seq![] + seq![] =~= before);
}

/// There are two actions, and each opens its own picker.
pub proof fn law_each_action_opens_its_picker(action_id: Seq<char>)
    ensures
        entrypoint_of("open-panes"@) == Some("panes"@),
        entrypoint_of("open-branches"@) == Some("branches"@),
        action_id != "open-panes"@ && action_id != "open-branches"@ ==> entrypoint_of(action_id)
            is None,
{
    reveal_strlit("open-panes");
    reveal_strlit("open-branches");
    assert("open-panes"@.len() != "open-branches"@.len());
}

} // verus!
