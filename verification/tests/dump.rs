//! The page that says everything a row leaves out.

use std::cell::RefCell;

use herdr_worktree_nav::dump;
use herdr_worktree_nav::dump::{repos_to_read, report, track_words, Chrome, RefsByRepo, WorkingTrees};
use herdr_worktree_nav::model::{
    checkout_paths, Branch, PaneNode, Refs, RepoNode, Tree, Trouble, Unlisted, WorktreeNode,
};
use herdr_worktree_nav::ordered::OrderedMap;
use herdr_worktree_nav::plugin_config::{Loaded, Panes, Settings};
use herdr_worktree_nav::port::{AgentStatus, GitRef, Pane, RefKind, RefWalk, Snapshot, Track};

fn ordered<V, const N: usize>(entries: [(String, V); N]) -> OrderedMap<V> {
    let mut map = OrderedMap::new();
    for (key, value) in entries {
        map.insert(key, value);
    }
    map
}

fn read_refs(git: &Asked, tree: &Tree) -> RefsByRepo {
    let roots = repos_to_read(tree);
    let walks = roots.iter().map(|root| git.local_refs(root)).collect();
    dump::read_refs(&roots, walks)
}

fn read_working_trees(git: &Asked, tree: &Tree) -> WorkingTrees {
    let paths = checkout_paths(tree);
    let answers = paths.iter().map(|path| git.is_dirty(path)).collect();
    dump::read_working_trees(&paths, &answers)
}

fn snapshot() -> Snapshot {
    Snapshot {
        version: "0.7.4".into(),
        protocol: 16,
        workspaces: Vec::new(),
        panes: vec![Pane {
            pane_id: "w1:p1".into(),
            tab_id: "w1:t1".into(),
            workspace_id: "w1".into(),
            terminal_id: "term_w1:p1".into(),
            cwd: None,
            foreground_cwd: None,
            focused: false,
            agent: Some("codex".into()),
            agent_status: AgentStatus::Idle,
            title: None,
            terminal_title_stripped: None,
            label: None,
        }],
    }
}

fn plugin_config(path: Option<&str>, show_no_panes: bool, complaint: Option<&str>) -> Loaded {
    Loaded {
        settings: Settings {
            panes: Panes {
                show_worktrees_without_panes: show_no_panes,
            },
        },
        complaint: complaint.map(str::to_string),
        path: path.map(str::to_string),
    }
}

fn worktree(branch: Option<&str>, path: &str, track: Option<Track>) -> WorktreeNode {
    WorktreeNode {
        branch: match branch {
            Some(branch) => Branch::Out(branch.to_string()),
            None => Branch::NothingOut,
        },
        checkout_path: path.to_string(),
        is_primary: branch == Some("main"),
        open_workspace_id: None,
        track,
        panes: Vec::new(),
    }
}

fn local(name: &str, worktree_path: &str, upstream: Option<&str>) -> GitRef {
    GitRef {
        name: name.to_string(),
        kind: RefKind::Local,
        committed_at: None,
        subject: None,
        upstream: upstream.map(str::to_string),
        track: None,
        worktree_path: Some(worktree_path.to_string()),
    }
}

#[test]
fn every_answer_a_row_leaves_out_is_on_the_page() {
    let mut main = worktree(Some("main"), "/src/app", None);
    main.open_workspace_id = Some("w1".into());
    main.panes = vec![PaneNode {
        pane_id: "w1:p1".into(),
        workspace_id: "w1".into(),
        tab_id: "w1:t1".into(),
        display_name: Some("codex".into()),
        agent_status: AgentStatus::Idle,
        focused: false,
    }];
    let tree = Tree {
        repos: vec![
            RepoNode {
                repo_key: "/src/app/.git".into(),
                repo_root: "/src/app".into(),
                display_name: "me/app".into(),
                refs: Refs::Read,
                worktrees: vec![
                    main,
                    worktree(Some("feat/login"), "/wt/feat-login", None),
                    worktree(Some("fix/crash"), "/wt/fix-crash", Some(Track::Gone)),
                    worktree(
                        Some("chore/deps"),
                        "/wt/chore-deps",
                        Some(Track::Ahead(2)),
                    ),
                    worktree(None, "/wt/detached", None),
                ],
            },
            RepoNode {
                repo_key: "/src/site/.git".into(),
                repo_root: "/src/site".into(),
                display_name: "me/site".into(),
                refs: Refs::Unreadable("fatal: bad ref (`git for-each-ref …`)".into()),
                worktrees: vec![worktree(Some("develop"), "/wt/develop", None)],
            },
        ],
        ungrouped: Vec::new(),
        trouble: Trouble::none(),
    };
    let refs = ordered([(
        "/src/app".to_string(),
        Ok(vec![
            local("main", "/src/app", Some("origin/main")),
            local("feat/login", "/wt/feat-login", None),
            local("fix/crash", "/wt/fix-crash", Some("origin/fix/crash")),
            local("chore/deps", "/wt/chore-deps", None),
        ]),
    )]);
    let working_trees = ordered([
        ("/src/app".to_string(), Ok(false)),
        ("/wt/feat-login".to_string(), Ok(true)),
        (
            "/wt/fix-crash".to_string(),
            Err("fatal: not a git repository (`git status`)".to_string()),
        ),
        ("/wt/chore-deps".to_string(), Ok(false)),
        ("/wt/develop".to_string(), Ok(false)),
    ]);

    let page = report(
        &snapshot(),
        &Chrome::default(),
        &plugin_config(Some("/plugin/config.toml"), false, None),
        &tree,
        &refs,
        &working_trees,
    );
    let expected = "\
herdr 0.7.4 (protocol 16)
chrome: accent Named(Cyan), indicators Dots
plugin config: /plugin/config.toml
[panes].show_worktrees_without_panes: false
1 panes in 2 repos

me/app  [/src/app]
  * main open in w1  /src/app
      upstream origin/main  track level  working tree clean
      w1:p1  Idle  codex
  - feat/login  /wt/feat-login
      upstream none  track none  working tree dirty
  - fix/crash  /wt/fix-crash
      upstream origin/fix/crash  track gone  working tree unreadable: fatal: not a git repository (`git status`)
  - chore/deps  /wt/chore-deps
      upstream none  track \u{2191}2  working tree clean
  - detached  /wt/detached
      no branch reported  working tree not asked

me/site  [/src/site]
  refs unreadable: fatal: bad ref (`git for-each-ref …`)
  - develop  /wt/develop
      upstream not read  track not read  working tree clean
";

    assert_eq!(page, expected, "got:\n{page}");
}

#[test]
fn a_missing_plugin_file_is_reported_as_defaults() {
    let tree = Tree {
        repos: Vec::new(),
        ungrouped: Vec::new(),
        trouble: Trouble::none(),
    };
    let page = report(
        &snapshot(),
        &Chrome::default(),
        &plugin_config(None, true, None),
        &tree,
        &RefsByRepo::new(),
        &WorkingTrees::new(),
    );
    assert!(
        page.contains("plugin config: missing, defaults\n"),
        "{page}"
    );
    assert!(
        page.contains("[panes].show_worktrees_without_panes: true\n"),
        "{page}"
    );
}

#[test]
fn a_rejected_plugin_file_names_the_problem() {
    let tree = Tree {
        repos: Vec::new(),
        ungrouped: Vec::new(),
        trouble: Trouble::none(),
    };
    let page = report(
        &snapshot(),
        &Chrome::default(),
        &plugin_config(
            Some("/plugin/config.toml"),
            true,
            Some("plugin config.toml: unknown field `pane`"),
        ),
        &tree,
        &RefsByRepo::new(),
        &WorkingTrees::new(),
    );
    assert!(
        page.contains("plugin config problem: plugin config.toml: unknown field `pane`\n"),
        "{page}"
    );
}

struct Asked {
    walks: RefCell<Vec<String>>,
    walk: Walk,
}

#[derive(Clone, Copy)]
enum Walk {
    Whole,
    Dropped,
    Refused,
}

impl Asked {
    fn local_refs(&self, repo_root: &str) -> Result<RefWalk, String> {
        self.walks.borrow_mut().push(repo_root.to_string());
        let refs = vec![local("main", "/src/app", Some("origin/main"))];
        match self.walk {
            Walk::Refused => {
                return Err("fatal: bad ref for\n  refs/heads/x (`git for-each-ref …`)".to_string())
            }
            Walk::Dropped => Ok(RefWalk {
                refs,
                dropped: Some("warning: ignoring broken ref\n  refs/heads/x".to_string()),
            }),
            Walk::Whole => Ok(RefWalk::of(refs)),
        }
    }

    fn is_dirty(&self, checkout_path: &str) -> Result<bool, String> {
        match checkout_path {
            "/src/app" => Ok(true),
            _ => return Err("fatal: not a git repository\n  (`git status`)".to_string()),
        }
    }
}

fn asked(walk: Walk) -> Asked {
    Asked {
        walks: RefCell::new(Vec::new()),
        walk,
    }
}

#[test]
fn what_is_asked_again_is_asked_about_the_repository_the_answer_is_filed_under() {
    let tree = one_repo(Refs::Read, vec![worktree(Some("main"), "/src/app", None)]);
    let git = asked(Walk::Whole);
    let refs = read_refs(&git, &tree);
    assert_eq!(git.walks.borrow_mut().as_slice(), ["/src/app"]);
    let page = report(
        &snapshot(),
        &Chrome::default(),
        &plugin_config(None, true, None),
        &tree,
        &refs,
        &read_working_trees(&git, &tree),
    );
    assert!(
        page.contains("      upstream origin/main  track level  working tree dirty"),
        "got:\n{page}"
    );
}

#[test]
fn a_repository_the_tree_could_not_read_is_not_asked_a_second_time() {
    let tree = one_repo(
        Refs::Unreadable("fatal: bad ref (`git for-each-ref …`)".to_string()),
        vec![worktree(Some("main"), "/src/app", None)],
    );
    let git = asked(Walk::Whole);
    assert_eq!(read_refs(&git, &tree).len(), 0);
    assert!(git.walks.borrow_mut().is_empty(), "git was not asked");

    assert_eq!(
        read_working_trees(&git, &tree).get("/src/app"),
        Some(&Ok(true))
    );
}

#[test]
fn a_second_walk_that_dropped_a_ref_or_would_not_answer_is_quoted_on_one_line() {
    let tree = one_repo(Refs::Read, vec![worktree(Some("main"), "/src/app", None)]);
    let git = asked(Walk::Dropped);
    assert_eq!(
        read_refs(&git, &tree).get("/src/app"),
        Some(&Err("warning: ignoring broken ref refs/heads/x".to_string()))
    );
    assert_eq!(
        read_working_trees(&git, &tree).get("/wt/nowhere"),
        None,
        "only the checkouts the tree has"
    );

    let tree = one_repo(Refs::Read, vec![worktree(Some("x"), "/wt/x", None)]);
    assert_eq!(
        read_working_trees(&git, &tree).get("/wt/x"),
        Some(&Err(
            "fatal: not a git repository (`git status`)".to_string()
        ))
    );
}

#[test]
fn a_second_walk_git_refused_is_what_the_second_read_line_is_drawn_from() {
    let tree = one_repo(
        Refs::Read,
        vec![worktree(
            Some("fix/crash"),
            "/wt/fix-crash",
            Some(Track::Gone),
        )],
    );
    let git = asked(Walk::Refused);
    let refs = read_refs(&git, &tree);
    assert_eq!(
        refs.get("/src/app"),
        Some(&Err(
            "fatal: bad ref for refs/heads/x (`git for-each-ref …`)".to_string()
        )),
        "git's words, on one line"
    );

    let page = report(
        &snapshot(),
        &Chrome::default(),
        &plugin_config(None, true, None),
        &tree,
        &refs,
        &read_working_trees(&git, &tree),
    );
    assert!(
        page.contains(
            "  refs unreadable on the second read: fatal: bad ref for refs/heads/x \
                 (`git for-each-ref …`)\n"
        ),
        "got:\n{page}"
    );
    assert!(
        page.contains("      upstream not read  track gone  working tree"),
        "and the track is still the tree's: {page}"
    );
}

fn one_repo(refs: Refs, worktrees: Vec<WorktreeNode>) -> Tree {
    Tree {
        repos: vec![RepoNode {
            repo_key: "/src/app/.git".into(),
            repo_root: "/src/app".into(),
            display_name: "me/app".into(),
            refs,
            worktrees,
        }],
        ungrouped: Vec::new(),
        trouble: Trouble::none(),
    }
}

fn page(tree: &Tree, refs: &RefsByRepo) -> String {
    report(
        &snapshot(),
        &Chrome::default(),
        &plugin_config(None, true, None),
        tree,
        refs,
        &WorkingTrees::new(),
    )
}

#[test]
fn a_ref_at_the_same_checkout_spelled_with_a_trailing_slash_still_matches() {
    let tree = one_repo(Refs::Read, vec![worktree(Some("main"), "/src/app", None)]);
    let refs = ordered([(
        "/src/app".to_string(),
        Ok(vec![local("main", "/src/app/", Some("origin/main"))]),
    )]);
    assert!(
        page(&tree, &refs).contains("      upstream origin/main  track level  working tree"),
        "got:\n{}",
        page(&tree, &refs)
    );
}

#[test]
fn a_second_read_that_failed_says_so_and_keeps_the_track_the_picker_draws() {
    let tree = one_repo(
        Refs::Read,
        vec![
            worktree(Some("fix/crash"), "/wt/fix-crash", Some(Track::Gone)),
            worktree(Some("main"), "/src/app", None),
        ],
    );
    let refs = ordered([(
        "/src/app".to_string(),
        Err("fatal: bad ref for refs/heads/x (`git for-each-ref …`)".to_string()),
    )]);
    let page = page(&tree, &refs);
    assert!(
        page.contains(
            "me/app  [/src/app]\n  refs unreadable on the second read: fatal: bad ref for \
                 refs/heads/x (`git for-each-ref …`)\n"
        ),
        "got:\n{page}"
    );
    assert!(
        page.contains("      upstream not read  track gone  working tree"),
        "the track is the tree's: {page}"
    );
    assert!(
        page.contains("      upstream not read  track not known  working tree"),
        "and an empty marker stays unnarrowed without the upstream: {page}"
    );

    let page = self::page(&tree, &RefsByRepo::new());
    assert!(!page.contains("second read"), "nothing to quote: {page}");
    assert!(
        page.contains("      upstream not read  track gone  working tree"),
        "{page}"
    );
}

#[test]
fn a_ref_git_lists_no_checkout_for_does_not_answer_for_one() {
    let tree = one_repo(Refs::Read, vec![worktree(Some("main"), "/src/app", None)]);
    let mut unchecked = local("feat/other", "/wt/feat-other", Some("origin/feat/other"));
    unchecked.worktree_path = None;
    let mut remote = local("main", "/src/app", Some("origin/nowhere"));
    remote.kind = RefKind::Remote;
    let refs = ordered([(
        "/src/app".to_string(),
        Ok(vec![
            unchecked,
            remote,
            local("main", "/src/app", Some("origin/main")),
        ]),
    )]);
    assert!(
        page(&tree, &refs).contains("      upstream origin/main  track level  working tree"),
        "got:\n{}",
        page(&tree, &refs)
    );
}

#[test]
fn a_branch_git_lists_at_another_checkout_is_not_this_checkout_s_ref() {
    let tree = one_repo(
        Refs::Read,
        vec![worktree(Some("feat/login"), "/wt/feat-login", None)],
    );
    let refs = ordered([(
        "/src/app".to_string(),
        Ok(vec![local(
            "feat/login",
            "/elsewhere/feat-login",
            Some("origin/feat/login"),
        )]),
    )]);
    assert!(
        page(&tree, &refs).contains(
            "      no ref at this checkout for feat/login  track not known  working tree"
        ),
        "got:\n{}",
        page(&tree, &refs)
    );
}

#[test]
fn a_checkout_git_lists_no_ref_at_is_not_called_a_branch_nobody_pushed() {
    let tree = one_repo(
        Refs::Read,
        vec![worktree(Some("feat/login"), "/wt/feat-login", None)],
    );
    let refs = ordered([(
        "/src/app".to_string(),
        Ok(vec![local("main", "/src/app", Some("origin/main"))]),
    )]);
    assert!(
        page(&tree, &refs).contains(
            "      no ref at this checkout for feat/login  track not known  working tree"
        ),
        "got:\n{}",
        page(&tree, &refs)
    );
}

#[test]
fn a_repository_herdr_would_not_list_has_a_heading_of_its_own() {
    let mut tree = one_repo(Refs::Read, Vec::new());
    tree.trouble.unlisted.push(Unlisted {
        repo_key: "/src/old/.git".into(),
        words: "herdr rejected worktree.list: internal error".into(),
        panes: Vec::new(),
    });
    let page = page(&tree, &RefsByRepo::new());
    assert!(
        page.contains("\nnot listed:\n  old  [/src/old/.git]\n"),
        "got:\n{page}"
    );
    assert!(
        page.contains("      herdr rejected worktree.list: internal error\n"),
        "got:\n{page}"
    );
}

#[test]
fn panes_in_no_repository_are_listed_last_under_their_own_heading() {
    let mut tree = one_repo(Refs::Read, Vec::new());
    tree.ungrouped = vec![PaneNode {
        pane_id: "w9:p9".into(),
        workspace_id: "w9".into(),
        tab_id: "w9:t1".into(),
        display_name: None,
        agent_status: AgentStatus::Unknown,
        focused: false,
    }];
    let bare = page(&tree, &RefsByRepo::new());
    assert!(
        bare.ends_with("\nnot in any repository:\n      w9:p9\n"),
        "got:\n{bare}"
    );

    tree.trouble.unplaced.insert(
        "w9:p9".to_string(),
        "git could not be run: no such file or directory (`git rev-parse`)".to_string(),
    );
    let with_reason = page(&tree, &RefsByRepo::new());
    assert!(
        with_reason.ends_with(
            "\nnot in any repository:\n      w9:p9\n          git could not be run: \
             no such file or directory (`git rev-parse`)\n"
        ),
        "got:\n{with_reason}"
    );
}

#[test]
fn a_ref_with_no_upstream_among_the_others_says_so_twice_over() {
    let tree = one_repo(
        Refs::Read,
        vec![worktree(Some("feat/login"), "/wt/shared", None)],
    );
    let mut deps = local("chore/deps", "/wt/shared", Some("origin/chore/deps"));
    deps.track = Some(Track::Gone);
    let refs = ordered([(
        "/src/app".to_string(),
        Ok(vec![
            local("feat/login", "/wt/shared", Some("origin/feat/login")),
            deps,
            local("scratch", "/wt/shared", None),
        ]),
    )]);
    assert!(
        page(&tree, &refs).contains(
            "      more than one ref at this checkout: \
                 feat/login \u{2192} origin/feat/login level, \
                 chore/deps \u{2192} origin/chore/deps gone, \
                 scratch \u{2192} none none  \
                 track not known  working tree"
        ),
        "got:\n{}",
        page(&tree, &refs)
    );
}

#[test]
fn two_refs_at_a_checkout_the_picker_did_mark_keep_the_marker_it_drew() {
    let tree = one_repo(
        Refs::Read,
        vec![worktree(
            Some("feat/login"),
            "/wt/shared",
            Some(Track::Gone),
        )],
    );
    let refs = ordered([(
        "/src/app".to_string(),
        Ok(vec![
            local("feat/login", "/wt/shared", Some("origin/feat/login")),
            local("chore/deps", "/wt/shared", Some("origin/chore/deps")),
        ]),
    )]);
    assert!(
        page(&tree, &refs).contains(
            "      more than one ref at this checkout: \
                 feat/login \u{2192} origin/feat/login level, \
                 chore/deps \u{2192} origin/chore/deps level  \
                 track gone  working tree"
        ),
        "got:\n{}",
        page(&tree, &refs)
    );
}

#[test]
fn a_marker_the_picker_drew_survives_a_walk_that_names_no_ref_here() {
    let tree = one_repo(
        Refs::Read,
        vec![worktree(
            Some("feat/login"),
            "/wt/shared",
            Some(Track::Gone),
        )],
    );
    let refs = ordered([(
        "/src/app".to_string(),
        Ok(vec![local("main", "/src/app", Some("origin/main"))]),
    )]);
    assert!(
        page(&tree, &refs)
            .contains("      no ref at this checkout for feat/login  track gone  working tree"),
        "got:\n{}",
        page(&tree, &refs)
    );
}

#[test]
fn a_ref_with_no_upstream_but_a_marker_keeps_its_marker_in_the_list() {
    let tree = one_repo(
        Refs::Read,
        vec![worktree(Some("feat/login"), "/wt/shared", None)],
    );
    let mut scratch = local("scratch", "/wt/shared", None);
    scratch.track = Some(Track::Ahead(2));
    let refs = ordered([(
        "/src/app".to_string(),
        Ok(vec![
            local("feat/login", "/wt/shared", Some("origin/feat/login")),
            scratch,
        ]),
    )]);
    assert!(
        page(&tree, &refs).contains(
            "      more than one ref at this checkout: \
                 feat/login \u{2192} origin/feat/login level, \
                 scratch \u{2192} none \u{2191}2  \
                 track not known  working tree"
        ),
        "got:\n{}",
        page(&tree, &refs)
    );
}

#[test]
fn a_checkout_with_nothing_out_names_the_refs_git_still_has_at_its_path() {
    let tree = one_repo(Refs::Read, vec![worktree(None, "/wt/shared", None)]);
    let mut deps = local("chore/deps", "/wt/shared", Some("origin/chore/deps"));
    deps.track = Some(Track::Gone);
    let refs = ordered([("/src/app".to_string(), Ok(vec![deps]))]);
    assert!(
        page(&tree, &refs).contains(
            "      no branch reported  git names at this path: \
                 chore/deps \u{2192} origin/chore/deps gone  working tree"
        ),
        "got:\n{}",
        page(&tree, &refs)
    );
}

#[test]
fn a_marker_on_a_checkout_with_nothing_out_is_on_the_page_too() {
    let tree = one_repo(
        Refs::Read,
        vec![worktree(None, "/wt/shared", Some(Track::Gone))],
    );
    let refs = ordered([("/src/app".to_string(), Ok(Vec::new()))]);
    assert!(
        page(&tree, &refs).contains(
            "      no branch reported  no ref at this checkout  track gone  working tree"
        ),
        "got:\n{}",
        page(&tree, &refs)
    );
}

#[test]
fn a_checkout_with_nothing_out_under_refs_that_were_not_read_says_so() {
    let tree = one_repo(
        Refs::Unreadable("fatal: bad ref (`git for-each-ref …`)".into()),
        vec![worktree(None, "/wt/shared", None)],
    );
    assert!(
        page(&tree, &RefsByRepo::new())
            .contains("      no branch reported  refs not read  working tree"),
        "got:\n{}",
        page(&tree, &RefsByRepo::new())
    );
}

#[test]
fn a_checkout_with_nothing_out_says_which_read_of_the_refs_failed() {
    let tree = one_repo(Refs::Read, vec![worktree(None, "/wt/shared", None)]);
    let second_read_failed = ordered([(
        "/src/app".to_string(),
        Err("fatal: bad object HEAD (`git for-each-ref …`)".to_string()),
    )]);
    let page = page(&tree, &second_read_failed);
    assert!(
        page.contains("  refs unreadable on the second read: fatal: bad object HEAD"),
        "got:\n{page}"
    );
    assert!(
        page.contains("      no branch reported  refs not read on the second read  working tree"),
        "got:\n{page}"
    );
}

#[test]
fn a_row_with_a_branch_out_also_reads_as_no_branch_reported() {
    let tree = one_repo(
        Refs::Read,
        vec![worktree(
            None,
            "/wt/feature",
            Some(Track::Ahead(1)),
        )],
    );
    let refs = ordered([(
        "/src/app".to_string(),
        Ok(vec![local(
            "feat/login",
            "/wt/feature",
            Some("origin/feat/login"),
        )]),
    )]);
    assert!(
        page(&tree, &refs).contains(
            "      no branch reported  git names at this path: \
                 feat/login \u{2192} origin/feat/login level  track \u{2191}1  working tree"
        ),
        "got:\n{}",
        page(&tree, &refs)
    );
}

#[test]
fn a_marker_on_a_row_with_no_branch_survives_a_failed_second_read() {
    let tree = one_repo(
        Refs::Read,
        vec![worktree(None, "/wt/shared", Some(Track::Gone))],
    );
    let second_read_failed = ordered([(
        "/src/app".to_string(),
        Err("fatal: bad object HEAD (`git for-each-ref …`)".to_string()),
    )]);
    assert!(
        page(&tree, &second_read_failed).contains(
            "      no branch reported  refs not read on the second read  track gone  working tree"
        ),
        "got:\n{}",
        page(&tree, &second_read_failed)
    );
}

#[test]
fn a_marker_on_a_row_with_no_branch_that_git_names_no_ref_at_says_so() {
    let tree = one_repo(
        Refs::Read,
        vec![worktree(None, "/wt/shared", Some(Track::Gone))],
    );
    let refs = ordered([(
        "/src/app".to_string(),
        Ok(vec![local("main", "/src/app", Some("origin/main"))]),
    )]);
    assert!(
        page(&tree, &refs).contains(
            "      no branch reported  no ref at this checkout  track gone  working tree"
        ),
        "got:\n{}",
        page(&tree, &refs)
    );
}

#[test]
fn two_refs_at_a_row_with_no_branch_are_both_named() {
    let tree = one_repo(Refs::Read, vec![worktree(None, "/wt/shared", None)]);
    let mut deps = local("chore/deps", "/wt/shared", Some("origin/chore/deps"));
    deps.track = Some(Track::Gone);
    let refs = ordered([(
        "/src/app".to_string(),
        Ok(vec![
            local("feat/login", "/wt/shared", Some("origin/feat/login")),
            deps,
        ]),
    )]);
    assert!(
        page(&tree, &refs).contains(
            "      no branch reported  git names at this path: \
                 feat/login \u{2192} origin/feat/login level, \
                 chore/deps \u{2192} origin/chore/deps gone  working tree"
        ),
        "got:\n{}",
        page(&tree, &refs)
    );
}

#[test]
fn a_row_with_no_branch_no_ref_and_no_marker_reads_no_branch_reported_alone() {
    let tree = one_repo(Refs::Read, vec![worktree(None, "/wt/shared", None)]);
    let refs = ordered([("/src/app".to_string(), Ok(Vec::new()))]);
    assert!(
        page(&tree, &refs).contains("      no branch reported  working tree"),
        "got:\n{}",
        page(&tree, &refs)
    );
}

#[test]
fn every_track_has_words_of_its_own() {
    assert_eq!(track_words(Track::Gone), "gone");
    assert_eq!(track_words(Track::Ahead(2)), "\u{2191}2");
    assert_eq!(track_words(Track::Behind(13)), "\u{2193}13");
    assert_eq!(track_words(Track::Diverged { ahead: 2, behind: 1 }), "\u{2191}2\u{2193}1");
    assert_eq!(track_words(Track::Unreadable), "unreadable");
}

#[test]
fn a_checkout_herdr_did_not_list_says_so_where_its_branch_would_be() {
    let mut node = worktree(None, "/wt/shared", None);
    node.branch = Branch::NotSaid;
    let tree = one_repo(Refs::Read, vec![node]);
    let refs = ordered([("/src/app".to_string(), Ok(Vec::new()))]);
    assert!(
        page(&tree, &refs).contains("      herdr did not list this checkout  working tree"),
        "got:\n{}",
        page(&tree, &refs)
    );
}
