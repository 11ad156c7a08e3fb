//! The branches picker.

use herdr_worktree_nav::branch_picker::{take_late, Picker, Wanted};
use herdr_worktree_nav::branches::{
    apply, bare, beside, entries, locate, open, plan, read, stage, start, Answer, BranchAction,
    BranchData, BranchEntry, BranchPlan, Exit, Listings, OpenStep, Opened, Replies, Stage, Standing,
    Update,
};
use herdr_worktree_nav::model::{find_pane, Branch, PaneNode, Refs, RepoNode, WorktreeNode};
use herdr_worktree_nav::port::{
    AgentStatus, GitRef, Pane, PaneDestination, PullRequest, RefKind, Snapshot, SplitDirection,
};

const APP: &str = "/src/app";

fn git_ref(name: &str, kind: RefKind) -> GitRef {
    GitRef {
        name: name.to_string(),
        kind,
        committed_at: None,
        subject: None,
        upstream: None,
        track: None,
        worktree_path: None,
    }
}

fn worktree(branch: &str, path: &str, panes: &[&str]) -> WorktreeNode {
    WorktreeNode {
        branch: Branch::Out(branch.to_string()),
        checkout_path: path.to_string(),
        is_primary: false,
        open_workspace_id: None,
        track: None,
        panes: panes
            .iter()
            .map(|id| PaneNode {
                pane_id: id.to_string(),
                workspace_id: "w1".to_string(),
                tab_id: "w1:t1".to_string(),
                display_name: None,
                agent_status: AgentStatus::Idle,
                focused: false,
            })
            .collect(),
    }
}

fn repo(root: &str, worktrees: Vec<WorktreeNode>) -> RepoNode {
    RepoNode {
        repo_key: format!("{root}/.git"),
        repo_root: root.to_string(),
        display_name: "me/app".to_string(),
        refs: Refs::Read,
        worktrees,
    }
}

fn heads(names: &[&str]) -> Vec<String> {
    names.iter().map(|name| name.to_string()).collect()
}

fn heard(names: &[&str]) -> Update {
    Update::RemoteHeads { repo_root: APP.to_string(), heads: heads(names) }
}

fn fetched(result: Result<(), &str>) -> Update {
    Update::Fetched { repo_root: APP.to_string(), result: result.map_err(str::to_string) }
}

/// A picker on a repository whose refs were read, and whose remote is being asked.
fn picker(listings: &mut Listings) -> Picker {
    let mut picker = Picker::new(APP.to_string());
    assert!(picker.show(APP), "nothing was read of it");
    assert!(picker.take_refs(listings, APP, Ok(vec![git_ref("main", RefKind::Local)])));
    picker
}

#[test]
fn a_repository_herdr_has_no_record_of_is_named_after_its_directory() {
    assert_eq!(bare("/src/app").display_name, "app");
    assert_eq!(bare("/src/app/").display_name, "app");
    assert_eq!(bare("app").display_name, "app");
}

#[test]
fn a_remote_that_answered_is_not_asked_again() {
    let mut listings = Listings::new();
    let (data, ask) = read(&mut listings, APP, Vec::new());
    assert!(ask && data.loading);
    let (_, ask) = read(&mut listings, APP, Vec::new());
    assert!(ask, "an answer that never came is asked for again");

    assert!(apply(&mut listings, APP, Answer::Heads(heads(&["main"]))).is_some());
    let (data, ask) = read(&mut listings, APP, Vec::new());
    assert!(!ask && !data.loading);
    assert_eq!(data.remote_heads, ["main"]);

    assert!(apply(&mut listings, APP, Answer::Refetched).is_none());
    let (data, ask) = read(&mut listings, APP, Vec::new());
    assert!(ask && data.remote_heads.is_empty(), "what was fetched is asked again");
}

#[test]
fn an_answer_nobody_asked_for_changes_nothing() {
    let mut listings = Listings::new();
    assert!(apply(&mut listings, APP, Answer::Unavailable).is_none());
    assert_eq!(listings.len(), 0);
}

#[test]
fn what_arrives_is_shown_where_it_belongs() {
    let mut listings = Listings::new();
    let mut picker = picker(&mut listings);
    assert!(matches!(picker.update(&mut listings, heard(&["main", "dev"])), Wanted::Nothing));
    assert_eq!(picker.data.remote_heads, ["main", "dev"]);
    assert_eq!(picker.data.local_refs.len(), 1);

    assert!(picker.show("/src/site"));
    assert!(picker.take_refs(&mut listings, "/src/site", Err("fatal".to_string())));
    assert!(picker.data.local_refs.is_empty());
    let list = vec![PullRequest {
        number: 7,
        title: "Add".to_string(),
        head_ref: "dev".to_string(),
        is_draft: false,
    }];
    let late = Update::PullRequests { repo_root: APP.to_string(), pull_requests: list };
    picker.update(&mut listings, late);
    assert!(picker.data.pull_requests.is_empty(), "the other repository is on screen");
    assert!(!picker.show(APP), "and this one is remembered");
    assert_eq!(picker.data.pull_requests.len(), 1);
}

#[test]
fn a_fetch_runs_once_and_reads_the_repository_again() {
    let mut listings = Listings::new();
    let mut picker = picker(&mut listings);
    picker.update(&mut listings, heard(&["main"]));
    assert!(picker.start_fetch(APP));
    assert!(picker.data.fetching);
    assert!(!picker.start_fetch(APP), "a second one would only race the first");

    match picker.update(&mut listings, fetched(Ok(()))) {
        Wanted::ReadRefs(root) => assert_eq!(root, APP),
        _ => panic!("what was fetched is in the refs"),
    }
    assert!(picker.take_refs(&mut listings, APP, Ok(Vec::new())), "its remote is asked again");
    assert!(!picker.data.fetching && picker.data.loading);
}

#[test]
fn a_fetch_that_failed_says_so_and_keeps_what_was_read() {
    let mut listings = Listings::new();
    let mut picker = picker(&mut listings);
    picker.update(&mut listings, heard(&["main"]));
    picker.start_fetch(APP);
    picker.update(&mut listings, fetched(Err("fatal: no route to host")));
    assert!(!picker.data.fetching);
    assert_eq!(picker.data.remote_heads, ["main"]);
    assert_eq!(picker.message.as_deref(), Some("fatal: no route to host"));
}

#[test]
fn getting_onto_a_branch_is_shown_and_its_failure_is_held() {
    let mut listings = Listings::new();
    let mut picker = picker(&mut listings);
    picker.choose_branch("dev");
    assert_eq!(picker.stage, Some(Stage::Starting { branch: "dev".to_string() }));
    let creating = Stage::Creating { branch: "dev".to_string() };
    picker.update(&mut listings, Update::Working(creating.clone()));
    assert_eq!(picker.stage, Some(creating));
    picker.update(&mut listings, Update::Done(Err("fatal: no".to_string())));
    assert_eq!(picker.message.as_deref(), Some("fatal: no"));
    assert_eq!(picker.finish(BranchAction::Quit), Err("fatal: no".to_string()));
}

#[test]
fn an_end_that_went_well_leaves() {
    let mut listings = Listings::new();
    let mut picker = picker(&mut listings);
    assert!(matches!(picker.update(&mut listings, Update::Done(Ok(()))), Wanted::Leave));
    assert_eq!(
        picker.finish(BranchAction::Jump { pane_id: "w1:p1".to_string() }),
        Ok((Exit::Closed, Some("w1:p1".to_string())))
    );
    assert_eq!(
        Picker::new(APP.to_string()).finish(BranchAction::ShowPanes),
        Ok((Exit::ShowPanes, None))
    );
}

#[test]
fn what_comes_too_late_to_be_shown_is_still_known() {
    let mut listings = Listings::new();
    read(&mut listings, APP, Vec::new());
    take_late(
        &mut listings,
        vec![
            Update::Working(Stage::Landing { destination: None }),
            fetched(Err("fatal")),
            heard(&["main"]),
            Update::RemoteUnavailable { repo_root: "/src/other".to_string() },
        ],
    );
    let remote = listings.get(APP).expect("it was asked");
    assert_eq!((remote.loading, remote.heads.as_slice()), (false, &heads(&["main"])[..]));
    take_late(&mut listings, vec![fetched(Ok(()))]);
    assert!(!listings.has(APP));
}

#[test]
fn every_branch_is_listed_with_what_it_already_is() {
    let repo = repo(
        APP,
        vec![worktree("feat/login", "/wt/login", &["w2:p1"]), worktree("fix/crash", "/wt/fix", &[])],
    );
    let mut data = BranchData::empty();
    data.local_refs = vec![
        git_ref("main", RefKind::Local),
        git_ref("feat/login", RefKind::Local),
        git_ref("old", RefKind::Remote),
        git_ref("fix/crash", RefKind::Local),
    ];
    data.remote_heads = heads(&["main", "old", "feat/search"]);
    let listed: Vec<(String, Standing)> =
        entries(&repo, &data).into_iter().map(|entry| (entry.name, entry.standing)).collect();
    assert_eq!(
        listed,
        [
            ("main".to_string(), Standing::Local),
            ("feat/login".to_string(), Standing::Running { pane_id: "w2:p1".to_string() }),
            ("fix/crash".to_string(), Standing::CheckedOut { checkout_path: "/wt/fix".to_string() }),
            ("old".to_string(), Standing::Fetched),
            ("feat/search".to_string(), Standing::RemoteOnly),
        ]
    );
}

fn entry(standing: Standing) -> BranchEntry {
    BranchEntry { name: "dev".to_string(), standing }
}

#[test]
fn what_happens_depends_on_what_the_branch_already_is() {
    let branch = || "dev".to_string();
    let planned = |standing| plan(&entry(standing), "main");
    assert_eq!(
        planned(Standing::Running { pane_id: "w1:p1".to_string() }),
        BranchPlan::Focus { pane_id: "w1:p1".to_string() }
    );
    assert_eq!(
        planned(Standing::CheckedOut { checkout_path: "/wt/dev".to_string() }),
        BranchPlan::Open { checkout_path: "/wt/dev".to_string() }
    );
    assert_eq!(planned(Standing::Local), BranchPlan::Create { branch: branch(), base: None });
    assert_eq!(
        planned(Standing::RemoteOnly),
        BranchPlan::FetchThenCreate { branch: branch(), base: "origin/dev".to_string() }
    );
    assert_eq!(
        planned(Standing::Fetched),
        BranchPlan::Create { branch: branch(), base: Some("origin/dev".to_string()) }
    );
    assert_eq!(
        planned(Standing::New),
        BranchPlan::Create { branch: branch(), base: Some("main".to_string()) }
    );
}

fn no_replies() -> Replies {
    Replies { head: None, fetched: None, opened: None, landed: None }
}

#[test]
fn a_branch_that_was_never_fetched_is_fetched_then_cut_then_landed_on() {
    let entry = entry(Standing::RemoteOnly);
    let mut replies = no_replies();
    let here = Some(PaneDestination::NewTab { workspace_id: "w1".to_string() });
    assert!(matches!(open(APP, &entry, &here, &replies), OpenStep::AskHead));
    replies.head = Some(Ok("main".to_string()));
    let step = open(APP, &entry, &here, &replies);
    assert!(matches!(&step, OpenStep::Fetch { branch } if branch == "dev"));
    assert!(matches!(stage(&step, &entry), Some(Stage::Fetching { .. })));
    replies.fetched = Some(Ok(()));
    match open(APP, &entry, &here, &replies) {
        OpenStep::Create(request) => {
            assert_eq!(request.branch.as_deref(), Some("dev"));
            assert_eq!(request.base.as_deref(), Some("origin/dev"));
            assert!(!request.focus);
        }
        _ => panic!("it was fetched"),
    }
    replies.opened = Some(Ok(Opened { pane_id: "w2:p1".to_string(), already_open: false }));
    let step = open(APP, &entry, &here, &replies);
    match &step {
        OpenStep::Move { pane_id, destination, focus } => {
            assert_eq!(pane_id, "w2:p1");
            assert_eq!(Some(destination), here.as_ref());
            assert!(focus, "the picker goes there with it");
        }
        _ => panic!("it was wanted elsewhere"),
    }
    assert_eq!(stage(&step, &entry), Some(Stage::Landing { destination: here.clone() }));
    let step = open(APP, &entry, &None, &replies);
    assert!(matches!(&step, OpenStep::Focus { pane_id } if pane_id == "w2:p1"));
    assert_eq!(stage(&step, &entry), Some(Stage::Landing { destination: None }));
    replies.landed = Some(Ok(()));
    assert!(matches!(open(APP, &entry, &here, &replies), OpenStep::Done));
}

#[test]
fn what_went_wrong_on_the_way_stops_it_there() {
    let entry = entry(Standing::CheckedOut { checkout_path: "/wt/dev".to_string() });
    let failed = |replies: &Replies| match open(APP, &entry, &None, replies) {
        OpenStep::Failed(words) => words,
        _ => panic!("something went wrong"),
    };
    let mut replies = no_replies();
    replies.head = Some(Err("fatal: no head".to_string()));
    assert_eq!(failed(&replies), "fatal: no head");
    replies.head = Some(Ok("main".to_string()));
    replies.opened = Some(Ok(Opened { pane_id: "w2:p1".to_string(), already_open: true }));
    assert_eq!(
        failed(&replies),
        "/wt/dev was opened by something else while the picker was up"
    );
    replies.opened = Some(Err("herdr rejected worktree.open".to_string()));
    assert_eq!(failed(&replies), "herdr rejected worktree.open");
}

#[test]
fn the_picker_starts_where_it_was_called_from() {
    let repos = || vec![repo("/src/site", Vec::new()), repo(APP, vec![worktree("dev", "/wt/dev", &["w1:p1"])])];
    assert_eq!(find_pane(&repos(), "w1:p1").as_deref(), Some("/wt/dev"));
    assert_eq!(locate(&repos(), "/wt/dev/"), Some(1));
    assert_eq!(locate(&repos(), "/elsewhere"), None);

    let pane = Some("w1:p1".to_string());
    let at = start(repos(), &pane, &Some("/src/site".to_string())).expect("there are two");
    assert_eq!((at.repos.len(), at.from.as_deref()), (2, Some("/wt/dev")));

    let at = start(repos(), &None, &Some("/src/new/".to_string())).expect("there are two");
    assert_eq!(at.from.as_deref(), Some("/src/new/"));
    assert_eq!(at.repos.len(), 3, "a repository with no pane open is still listed");
    assert_eq!(at.repos[2].repo_root, "/src/new");

    assert!(start(Vec::new(), &None, &None).is_none());
}

#[test]
fn a_pane_goes_to_the_right_of_the_one_that_the_picker_was_called_from() {
    let pane = |pane_id: &str, tab_id: &str| Pane {
        pane_id: pane_id.to_string(),
        tab_id: tab_id.to_string(),
        workspace_id: "w1".to_string(),
        terminal_id: String::new(),
        cwd: None,
        foreground_cwd: None,
        focused: false,
        agent: None,
        agent_status: AgentStatus::Unknown,
        title: None,
        terminal_title_stripped: None,
        label: None,
    };
    let session = Snapshot {
        panes: vec![pane("w1:p1", "w1:t1"), pane("w1:p2", "w1:t2")],
        ..Snapshot::default()
    };
    assert_eq!(
        beside(&session, &Some("w1:p2".to_string())),
        Some(PaneDestination::Tab {
            tab_id: "w1:t2".to_string(),
            split: SplitDirection::Right,
            target_pane_id: Some("w1:p2".to_string()),
        })
    );
    assert_eq!(beside(&session, &Some("w9:p9".to_string())), None, "it is gone");
    assert_eq!(beside(&session, &None), None);
}
