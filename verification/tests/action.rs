//! Opening the pickers, and switching between them.

use std::path::Path;

use herdr_worktree_nav::action::{already_open, remembered, run, Opening};
use herdr_worktree_nav::branches;
use herdr_worktree_nav::context::{Context, ContextWorktree};
use herdr_worktree_nav::herdr_config;
use herdr_worktree_nav::panes;
use herdr_worktree_nav::picker::{
    options, summoned, views, Carried, Entrypoint, Left, Summoned,
};
use herdr_worktree_nav::port::{AgentStatus, Pane, Snapshot};

fn session(pane_id: &str) -> Snapshot {
    Snapshot {
        panes: vec![Pane {
            pane_id: pane_id.to_string(),
            tab_id: "w1:t1".to_string(),
            workspace_id: "w1".to_string(),
            terminal_id: String::new(),
            cwd: None,
            foreground_cwd: None,
            focused: false,
            agent: None,
            agent_status: AgentStatus::Unknown,
            title: None,
            terminal_title_stripped: None,
            label: None,
        }],
        ..Snapshot::default()
    }
}

fn text(text: &str) -> Option<String> {
    Some(text.to_string())
}

#[test]
fn a_picker_that_is_open_is_shown_again() {
    assert_eq!(remembered(&text(" w1:p9\n")), text("w1:p9"));
    assert_eq!(remembered(&text(" \n")), None);
    assert_eq!(remembered(&None), None);
    assert_eq!(already_open(text("w1:p9"), &session("w1:p9")), text("w1:p9"));
    assert_eq!(already_open(text("w1:p9"), &session("w1:p1")), None, "it is gone");
    match run("open-panes", &Context::default(), text("w1:p9")) {
        Ok(Opening::Focus(pane)) => assert_eq!(pane, "w1:p9"),
        _ => panic!("it is open"),
    }
}

#[test]
fn a_new_picker_is_told_where_it_was_called_from() {
    let context = Context {
        focused_pane_id: text("w1:p1"),
        worktree: Some(ContextWorktree {
            repo_root: "/src/app".to_string(),
            checkout_path: "/wt/dev".to_string(),
        }),
        ..Context::default()
    };
    match run("open-branches", &context, None) {
        Ok(Opening::Open(request)) => {
            assert_eq!(request.plugin_id, "herdr-worktree-nav");
            assert_eq!(request.entrypoint, "branches");
            assert_eq!(request.placement, "overlay");
            assert_eq!(request.cwd.as_deref(), Some("/wt/dev"));
            assert!(request.focus);
            assert_eq!(
                request.env,
                [
                    ("GH_NAV_FROM_PANE".to_string(), "w1:p1".to_string()),
                    ("GH_NAV_REPO_ROOT".to_string(), "/src/app".to_string()),
                ]
            );
        }
        _ => panic!("nothing is open"),
    }
}

#[test]
fn an_action_nobody_knows_is_named() {
    match run("open-everything", &Context::default(), None) {
        Err(words) => assert_eq!(words, "unknown action `open-everything`"),
        Ok(_) => panic!("there is no such action"),
    }
}

#[test]
fn a_variable_that_says_nothing_is_not_there() {
    let found = summoned(text(""), text(""), text("/wt/dev"));
    assert_eq!(found, Summoned { pane: None, repo_root: text("/wt/dev") });
    let found = summoned(text("w1:p1"), text("/src/app"), text("/wt/dev"));
    assert_eq!(found, Summoned { pane: text("w1:p1"), repo_root: text("/src/app") });
}

#[test]
fn one_picker_leads_to_the_other() {
    let from = || Carried {
        summoned: Summoned { pane: text("w1:p1"), repo_root: text("/src/app") },
        show_worktrees_without_panes: false,
        complaint: None,
    };
    let exit = panes::Exit::ShowBranches {
        repo_root: text("/src/site"),
        show_worktrees_without_panes: true,
    };
    let (next, handed) = views(Left::Panes(exit), from());
    assert_eq!(next, Some(Entrypoint::Branches));
    assert_eq!(handed.summoned, Summoned { pane: text("w1:p1"), repo_root: text("/src/site") });
    let (next, mut handed) = views(Left::Branches(branches::Exit::ShowPanes), handed);
    assert_eq!(next, Some(Entrypoint::Panes));
    let opened = options(&mut handed);
    assert!(opened.show_worktrees_without_panes, "what was toggled comes back");
    assert_eq!(opened.initial_pane, text("w1:p1"));
    assert_eq!(
        views(Left::Branches(branches::Exit::ShowPanes), from()),
        (Some(Entrypoint::Panes), from())
    );
    assert_eq!(views(Left::Panes(panes::Exit::Closed), from()), (None, from()));
    assert_eq!(views(Left::Branches(branches::Exit::Closed), from()), (None, from()));
}

#[test]
fn what_is_wrong_with_the_configuration_is_said_once() {
    let mut carried = Carried {
        summoned: Summoned { pane: None, repo_root: None },
        show_worktrees_without_panes: true,
        complaint: text("that is no setting"),
    };
    assert_eq!(options(&mut carried).config_complaint, text("that is no setting"));
    assert_eq!(options(&mut carried).config_complaint, None);
    assert!(carried.show_worktrees_without_panes);
}

#[test]
fn the_file_of_herdr_is_looked_for_above_the_plugin_first() {
    let paths = herdr_config::config_path(
        &text("/etc/herdr/plugins/config/herdr-worktree-nav"),
        &text("/xdg"),
        &text("/home/me"),
    );
    assert_eq!(
        paths,
        [
            "/etc/herdr/config.toml",
            "/xdg/herdr/config.toml",
            "/home/me/.config/herdr/config.toml"
        ]
    );
    assert!(herdr_config::config_path(&None, &None, &None).is_empty());
    let taken = |there: [bool; 3]| herdr_config::taken(&paths, &there.to_vec());
    assert_eq!(taken([true, true, true]), text("/etc/herdr/config.toml"));
    assert_eq!(taken([false, true, true]), text("/xdg/herdr/config.toml"));
    assert_eq!(taken([false, false, false]), None);
}

#[test]
fn the_directory_three_above_is_found_as_paths_are_read() {
    for dir in [
        "/a/b/c/d",
        "/a/b/c/d/",
        "/a//b/./c/d/.",
        "/b/c/d",
        "//b/c/d",
        "/c/d",
        "/",
        "",
        "b/c/d",
        "a/b/c/d",
        "./b/c/d",
        "./a/b/c/d",
        "c/d",
        "./c/d",
        ".",
        "a/../c/d",
        "../a/b/c/d",
        ".hidden/b/c/d",
        "a/b/c//",
    ] {
        let above = Path::new(dir).ancestors().nth(3).map(|root| root.join("config.toml"));
        let above: Vec<String> = above.iter().map(|path| path.display().to_string()).collect();
        assert_eq!(herdr_config::config_path(&text(dir), &None, &None), above, "{dir}");
    }
}
