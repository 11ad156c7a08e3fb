//! Reading what is open into a tree.

use std::collections::{BTreeMap, HashMap};

use herdr_worktree_nav::collect;
use herdr_worktree_nav::collect::{is_inside, Placed, Probed, Reply};
use herdr_worktree_nav::model::{Tree, Unlisted};
use herdr_worktree_nav::ordered::OrderedMap;
use herdr_worktree_nav::port::{
    AgentStatus, GitRef, Pane, PaneSplit, RefKind, RefWalk, RepoIdentity, Slug, Snapshot, Track,
    Workspace, WorkspaceWorktree, Worktree, WorktreeList, WorktreeOpen, WorktreeSource,
};
use herdr_worktree_nav::tree::{PanePlacement, RepoInput};

/// A result whose failure is told in words, as every port tells it.
type Result<T, E = String> = std::result::Result<T, E>;

fn refused(method: &str) -> ! {
    unreachable!("{method} is not one of the answers this fake gives")
}

/// The questions that are put to git, each answered only by the fakes that have an answer.
trait FakeGit {
    fn identify(&self, _cwd: &str) -> Result<Option<RepoIdentity>> {
        refused("identify")
    }
    fn github_slug(&self, _repo_root: &str) -> Result<Option<Slug>> {
        refused("github_slug")
    }
    fn local_refs(&self, _repo_root: &str) -> Result<RefWalk> {
        refused("local_refs")
    }
    fn is_dirty(&self, _checkout_path: &str) -> Result<bool> {
        refused("is_dirty")
    }
    /// Whether what was asked ever comes to an end.
    fn finishes(&self) -> bool {
        true
    }
}

/// The questions that are put to herdr, each answered only by the fakes that have an answer.
trait FakeHerdr {
    fn snapshot(&self) -> Result<Snapshot> {
        refused("snapshot")
    }
    fn worktree_list(&self, _cwd: &str) -> Result<WorktreeList> {
        refused("worktree_list")
    }
    fn worktree_open(&self, _request: &WorktreeOpen) -> Result<()> {
        refused("worktree_open")
    }
    fn pane_focus(&self, _pane_id: &str) -> Result<()> {
        refused("pane_focus")
    }
    fn pane_split(&self, _request: &PaneSplit) -> Result<()> {
        refused("pane_split")
    }
    fn pane_close(&self, _pane_id: &str) -> Result<()> {
        refused("pane_close")
    }
}

fn reply<T>(git: &dyn FakeGit, ask: impl FnOnce() -> Result<T>) -> Reply<T> {
    match git.finishes() {
        true => Reply::Answered(ask()),
        false => Reply::Lost,
    }
}

fn placed(
    snapshot: &Snapshot,
    git: &dyn FakeGit,
) -> (OrderedMap<PanePlacement>, OrderedMap<String>) {
    let mut answers: OrderedMap<Placed> = OrderedMap::new();
    for cwd in collect::unresolved(snapshot) {
        let placed = collect::identify_one(reply(git, || git.identify(&cwd)));
        answers.insert(cwd, placed);
    }
    collect::resolve_placements(snapshot, &answers)
}

fn listed_repos(
    herdr: &dyn FakeHerdr,
    git: &dyn FakeGit,
    placements: &OrderedMap<PanePlacement>,
) -> (Vec<RepoInput>, Vec<Unlisted>) {
    let groups = collect::repositories(placements);
    let mut outcomes = Vec::new();
    for group in &groups {
        let mut answers = Vec::new();
        let slug = loop {
            match collect::probe(group, &answers) {
                Probed::Ask(cwd) => answers.push(herdr.worktree_list(&cwd)),
                Probed::Listed { repo_root, .. } => break git.github_slug(&repo_root),
                Probed::NotListed(_) => break Ok(None),
            }
        };
        outcomes.extend(collect::outcome(group, answers, &slug));
    }
    collect::filed(&groups, outcomes)
}

fn walked(git: &dyn FakeGit, repo: RepoInput) -> RepoInput {
    let root = repo.repo_root.clone();
    collect::read_refs(repo, reply(git, || git.local_refs(&root)))
}

fn collect_tree(herdr: &dyn FakeHerdr, git: &dyn FakeGit) -> Result<(Snapshot, Tree)> {
    let snapshot = herdr.snapshot()?;
    let (placements, unplaced) = placed(&snapshot, git);
    let (repos, unlisted) = listed_repos(herdr, git, &placements);
    let repos = repos.into_iter().map(|repo| walked(git, repo)).collect();
    let tree = collect::collect_tree(&snapshot, &repos, &placements, unlisted, unplaced);
    Ok((snapshot, tree))
}

fn entries<V>(map: &OrderedMap<V>) -> Vec<(&str, &V)> {
    (0..map.len()).map(|i| (map.key_at(i), map.value_at(i))).collect()
}

fn read_refs(git: &dyn FakeGit, repos: &mut Vec<RepoInput>) {
    *repos = repos.drain(..).map(|repo| walked(git, repo)).collect();
}

fn collect_repos(
    herdr: &dyn FakeHerdr,
    git: &dyn FakeGit,
    placements: &HashMap<String, PanePlacement>,
) -> (Vec<RepoInput>, Vec<Unlisted>) {
    let mut map = OrderedMap::new();
    for (pane_id, placement) in placements {
        map.insert(pane_id.clone(), placement.clone());
    }
    listed_repos(herdr, git, &map)
}

fn resolve_placements(
    snapshot: &Snapshot,
    git: &dyn FakeGit,
) -> (HashMap<String, PanePlacement>, BTreeMap<String, String>) {
    let (placements, unplaced) = placed(snapshot, git);
    (
        entries(&placements).into_iter().map(|(k, v)| (k.to_string(), v.clone())).collect(),
        entries(&unplaced).into_iter().map(|(k, v)| (k.to_string(), v.clone())).collect(),
    )
}

fn pane(pane_id: &str, cwd: &str) -> Pane {
    Pane {
        pane_id: pane_id.into(),
        tab_id: "w1:t1".into(),
        workspace_id: "w1".into(),
        terminal_id: String::new(),
        cwd: Some(cwd.into()),
        foreground_cwd: None,
        focused: false,
        agent: None,
        agent_status: AgentStatus::Unknown,
        title: None,
        terminal_title_stripped: None,
        label: None,
    }
}

struct Repository {
    slug: Result<Option<Slug>, ()>,
}

struct RefsFailFor(&'static str, Trouble);

enum Trouble {
    Refused,
    Dropped,
}

impl FakeGit for RefsFailFor {
    fn local_refs(&self, repo_root: &str) -> Result<RefWalk> {
        if repo_root != self.0 {
            return Ok(RefWalk::of(Vec::new()));
        }
        match self.1 {
            Trouble::Refused => {
                return Err("fatal: bad ref for\n  refs/heads/x (`git for-each-ref …`)".to_string())
            }
            Trouble::Dropped => Ok(RefWalk {
                refs: vec![GitRef {
                    name: "main".to_string(),
                    kind: RefKind::Local,
                    committed_at: None,
                    subject: None,
                    upstream: None,
                    track: Some(Track::Gone),
                    worktree_path: Some("/src/app".to_string()),
                }],
                dropped: Some(
                    "warning: ignoring broken ref refs/heads/x\n  warning: ignoring \
                     ref with broken name refs/heads/a..b"
                        .to_string(),
                ),
            }),
        }
    }
}

struct RefsPanic;

impl FakeGit for RefsPanic {
    fn finishes(&self) -> bool {
        false
    }
}

fn repo_input(repo_root: &str) -> RepoInput {
    RepoInput {
        repo_key: format!("{repo_root}/.git"),
        repo_root: repo_root.to_string(),
        display_name: repo_root.to_string(),
        worktrees: Vec::new(),
        refs: Ok(Vec::new()),
    }
}

#[test]
fn a_ref_walk_that_failed_keeps_gits_words_on_one_line_and_touches_no_other_repository() {
    let mut repos = vec![repo_input("/src/app"), repo_input("/src/site")];
    read_refs(&RefsFailFor("/src/app", Trouble::Refused), &mut repos);
    assert_eq!(
        repos[0].refs,
        Err("fatal: bad ref for refs/heads/x (`git for-each-ref …`)".to_string())
    );
    assert_eq!(
        repos[1].refs,
        Ok(Vec::new()),
        "the other repository answered"
    );
}

#[test]
fn a_walk_git_dropped_a_ref_from_is_not_this_repository_s_refs() {
    let mut repos = vec![repo_input("/src/app"), repo_input("/src/site")];
    read_refs(&RefsFailFor("/src/app", Trouble::Dropped), &mut repos);
    assert_eq!(
        repos[0].refs,
        Err(
            "warning: ignoring broken ref refs/heads/x warning: ignoring ref with \
             broken name refs/heads/a..b"
                .to_string()
        ),
        "git's words, on one line"
    );
    assert_eq!(
        repos[1].refs,
        Ok(Vec::new()),
        "the other repository answered"
    );
}

#[test]
fn a_ref_walk_whose_thread_did_not_finish_is_not_an_empty_answer() {
    let mut repos = vec![repo_input("/src/app")];
    read_refs(&RefsPanic, &mut repos);
    assert_eq!(
        repos[0].refs,
        Err("the thread reading them did not finish".to_string())
    );
}

impl FakeHerdr for Repository {
    fn worktree_list(&self, cwd: &str) -> Result<WorktreeList> {
        if cwd.contains("refused") {
            return Err("herdr rejected worktree.list: internal error".to_string());
        }
        Ok(WorktreeList {
            source: WorktreeSource {
                repo_key: "/src/app/.git".into(),
                repo_name: "app".into(),
                repo_root: "/src/app".into(),
                source_checkout_path: "/src/app".into(),
                source_workspace_id: None,
            },
            worktrees: Vec::<Worktree>::new(),
        })
    }
    fn snapshot(&self) -> Result<Snapshot> {
        Ok(Snapshot {
            workspaces: vec![Workspace {
                workspace_id: "w1".into(),
                label: String::new(),
                number: 0,
                focused: false,
                active_tab_id: None,
                agent_status: AgentStatus::Unknown,
                worktree: Some(WorkspaceWorktree {
                    repo_key: "/src/refused/.git".into(),
                    repo_name: "refused".into(),
                    repo_root: "/src/refused".into(),
                    checkout_path: "/src/refused".into(),
                    is_linked_worktree: false,
                }),
            }],
            panes: vec![
                Pane {
                    pane_id: "w1:p1".into(),
                    tab_id: "w1:t1".into(),
                    workspace_id: "w1".into(),
                    terminal_id: String::new(),
                    cwd: Some("/src/refused".into()),
                    foreground_cwd: None,
                    focused: false,
                    agent: None,
                    agent_status: AgentStatus::Unknown,
                    title: None,
                    terminal_title_stripped: None,
                    label: None,
                },
                Pane {
                    pane_id: "w9:p9".into(),
                    tab_id: "w9:t1".into(),
                    workspace_id: "w9".into(),
                    terminal_id: String::new(),
                    cwd: Some("/home/me".into()),
                    foreground_cwd: None,
                    focused: false,
                    agent: None,
                    agent_status: AgentStatus::Unknown,
                    title: None,
                    terminal_title_stripped: None,
                    label: None,
                },
            ],
            ..Snapshot::default()
        })
    }
}

impl FakeGit for Repository {
    fn github_slug(&self, _repo_root: &str) -> Result<Option<Slug>> {
        match &self.slug {
            Ok(slug) => Ok(slug.clone()),
            Err(()) => Err("fatal: not a git repository".to_string()),
        }
    }
    fn identify(&self, _cwd: &str) -> Result<Option<RepoIdentity>> {
        Err("git could not be run: no such file or directory (`git rev-parse`)".to_string())
    }
    fn local_refs(&self, _repo_root: &str) -> Result<RefWalk> {
        Ok(RefWalk::of(Vec::new()))
    }
}

fn one_pane_in(checkout_path: &str) -> HashMap<String, PanePlacement> {
    HashMap::from([(
        "w1:p1".to_string(),
        PanePlacement {
            repo_key: "/src/app/.git".to_string(),
            checkout_path: checkout_path.to_string(),
        },
    )])
}

fn named(slug: Result<Option<Slug>, ()>) -> String {
    let port = Repository { slug };
    let (repos, _) = collect_repos(&port, &port, &one_pane_in("/src/app"));
    repos
        .into_iter()
        .next()
        .expect("herdr answered for the one repository")
        .display_name
}

#[test]
fn a_repository_is_labelled_by_what_github_calls_it() {
    assert_eq!(
        named(Ok(Slug::owner_repo("ShoMasegi", "app"))),
        "ShoMasegi/app"
    );
}

#[test]
fn a_repository_github_does_not_know_keeps_the_name_herdr_gave_it() {
    for slug in [Ok(None), Err(())] {
        assert_eq!(named(slug), "app");
    }
}

struct IdentifiesWithASlash;

impl FakeGit for IdentifiesWithASlash {
    fn identify(&self, cwd: &str) -> Result<Option<RepoIdentity>> {
        if is_inside(cwd, "/src/app") {
            return Ok(None);
        }
        Ok(Some(RepoIdentity {
            repo_key: "/src/app/.git/".to_string(),
            checkout_path: cwd.to_string(),
            branch: None,
        }))
    }
}

#[test]
fn one_repository_is_asked_about_once_however_many_panes_are_in_it() {
    let port = Repository {
        slug: Ok(Slug::owner_repo("ShoMasegi", "app")),
    };
    let two_panes = HashMap::from([
        (
            "w1:p1".to_string(),
            PanePlacement {
                repo_key: "/src/app/.git".to_string(),
                checkout_path: "/src/app".to_string(),
            },
        ),
        (
            "w1:p2".to_string(),
            PanePlacement {
                repo_key: "/src/app/.git".to_string(),
                checkout_path: "/wt/feat-login".to_string(),
            },
        ),
    ]);
    let (repos, _) = collect_repos(&port, &port, &two_panes);
    assert_eq!(
        repos.iter().map(|repo| &repo.repo_key).collect::<Vec<_>>(),
        ["/src/app/.git"],
        "one repository, asked about once"
    );
}

#[test]
fn a_repository_herdr_would_not_list_is_kept_with_its_words_and_takes_nothing_with_it() {
    let port = Repository { slug: Ok(None) };
    let two_repos = HashMap::from([
        (
            "w1:p1".to_string(),
            PanePlacement {
                repo_key: "/src/app/.git".to_string(),
                checkout_path: "/src/app".to_string(),
            },
        ),
        (
            "w2:p1".to_string(),
            PanePlacement {
                repo_key: "/src/old/.git".to_string(),
                checkout_path: "/src/refused".to_string(),
            },
        ),
    ]);

    let (repos, unlisted) = collect_repos(&port, &port, &two_repos);

    assert_eq!(
        repos.iter().map(|repo| &repo.repo_key).collect::<Vec<_>>(),
        ["/src/app/.git"],
        "the repository that answered is untouched"
    );
    assert_eq!(unlisted.len(), 1, "and the other is kept, not dropped");
    assert_eq!(unlisted[0].repo_key, "/src/old/.git");
    assert_eq!(
        unlisted[0]
            .panes
            .iter()
            .map(|(pane, checkout)| (pane.as_str(), checkout.as_str()))
            .collect::<Vec<_>>(),
        [("w2:p1", "/src/refused")],
        "and where its pane is, which no row of it will say"
    );
    assert_eq!(
        unlisted[0].words, "herdr rejected worktree.list: internal error",
        "herdr's own words, on one line"
    );
}

#[test]
fn a_repository_one_of_whose_checkouts_herdr_refuses_is_listed_through_another() {
    let port = Repository { slug: Ok(None) };
    let two_checkouts = HashMap::from([
        (
            "w1:p1".to_string(),
            PanePlacement {
                repo_key: "/src/app/.git".to_string(),
                checkout_path: "/src/refused".to_string(),
            },
        ),
        (
            "w1:p2".to_string(),
            PanePlacement {
                repo_key: "/src/app/.git".to_string(),
                checkout_path: "/wt/feat-login".to_string(),
            },
        ),
    ]);

    let (repos, unlisted) = collect_repos(&port, &port, &two_checkouts);

    assert_eq!(
        repos.iter().map(|repo| &repo.repo_key).collect::<Vec<_>>(),
        ["/src/app/.git"],
        "the checkout that answered speaks for the repository"
    );
    assert!(unlisted.is_empty(), "{unlisted:?}");
}

struct RefusesEach;

impl FakeHerdr for RefusesEach {
    fn worktree_list(&self, cwd: &str) -> Result<WorktreeList> {
        return Err(format!("herdr rejected worktree.list: no checkout at {cwd}"))
    }
}

#[test]
fn a_repository_every_checkout_of_which_herdr_refuses_is_named_in_what_it_said_first() {
    let git = Repository { slug: Ok(None) };
    let two_checkouts = HashMap::from([
        (
            "w1:p1".to_string(),
            PanePlacement {
                repo_key: "/src/app/.git".to_string(),
                checkout_path: "/wt/second".to_string(),
            },
        ),
        (
            "w1:p2".to_string(),
            PanePlacement {
                repo_key: "/src/app/.git".to_string(),
                checkout_path: "/src/first".to_string(),
            },
        ),
    ]);

    let (repos, unlisted) = collect_repos(&RefusesEach, &git, &two_checkouts);

    assert!(repos.is_empty());
    assert_eq!(
        unlisted
            .iter()
            .map(|repo| repo.words.as_str())
            .collect::<Vec<_>>(),
        ["herdr rejected worktree.list: no checkout at /src/first"]
    );
}

struct AnswersForAnother;

impl FakeHerdr for AnswersForAnother {
    fn worktree_list(&self, cwd: &str) -> Result<WorktreeList> {
        if cwd.contains("refused") {
            return Err("herdr rejected worktree.list: internal error".to_string());
        }
        Ok(WorktreeList {
            source: WorktreeSource {
                repo_key: "/src/other/.git/".into(),
                repo_name: "other".into(),
                repo_root: "/src/other".into(),
                source_checkout_path: cwd.into(),
                source_workspace_id: None,
            },
            worktrees: Vec::<Worktree>::new(),
        })
    }
}

#[test]
fn a_checkout_herdr_answers_for_as_another_repository_is_not_this_ones_listing() {
    let git = Repository { slug: Ok(None) };
    let placement = |checkout: &str| PanePlacement {
        repo_key: "/src/app/.git".to_string(),
        checkout_path: checkout.to_string(),
    };
    let words = |unlisted: &[Unlisted]| {
        unlisted
            .iter()
            .map(|repo| repo.words.clone())
            .collect::<Vec<_>>()
    };

    let (repos, unlisted) = collect_repos(
        &AnswersForAnother,
        &git,
        &HashMap::from([
            ("w1:p1".to_string(), placement("/src/refused")),
            ("w1:p2".to_string(), placement("/wt/recloned")),
        ]),
    );
    assert!(repos.is_empty(), "no listing of `app` came back");
    assert_eq!(
        words(&unlisted),
        ["herdr rejected worktree.list: internal error"],
        "and the first thing herdr said about it is what is said"
    );

    let (repos, unlisted) = collect_repos(
        &AnswersForAnother,
        &git,
        &HashMap::from([("w1:p2".to_string(), placement("/wt/recloned"))]),
    );
    assert!(repos.is_empty());
    assert_eq!(
        words(&unlisted),
        ["herdr listed /wt/recloned as /src/other/.git"],
        "the only answer is the one about another repository, and that is the reason"
    );
}

#[test]
fn a_reading_hands_the_tree_what_it_could_not_list() {
    let port = Repository { slug: Ok(None) };

    let (_, tree) = collect_tree(&port, &port).expect("herdr described its session");

    assert!(tree.repos.is_empty(), "the one repository was not listed");
    assert_eq!(
        tree.trouble
            .unlisted
            .iter()
            .map(|repo| (repo.name(), repo.words.clone()))
            .collect::<Vec<_>>(),
        [(
            "refused".to_string(),
            "herdr rejected worktree.list: internal error".to_string()
        )],
        "and the tree carries what herdr said about it"
    );
    assert_eq!(
        entries(&tree.trouble.unplaced)
            .into_iter()
            .map(|(pane, words)| (pane, words.as_str()))
            .collect::<Vec<_>>(),
        [(
            "w9:p9",
            "git could not be run: no such file or directory (`git rev-parse`)"
        )],
        "and what git said about the pane it could not place"
    );
}

#[test]
fn a_placement_carries_one_spelling_of_a_repository_key_whichever_answered() {
    let snapshot = Snapshot {
        version: "0.7.4".into(),
        protocol: 16,
        workspaces: vec![Workspace {
            workspace_id: "w1".into(),
            label: String::new(),
            number: 0,
            focused: false,
            active_tab_id: None,
            agent_status: AgentStatus::Unknown,
            worktree: Some(WorkspaceWorktree {
                repo_key: "/src/app/.git/".into(),
                repo_name: "app".into(),
                repo_root: "/src/app".into(),
                checkout_path: "/src/app".into(),
                is_linked_worktree: false,
            }),
        }],
        panes: vec![pane("w1:p1", "/src/app/src"), pane("w1:p2", "/wt/feat-login")],
    };

    let (placements, _) = resolve_placements(&snapshot, &IdentifiesWithASlash);
    for pane in ["w1:p1", "w1:p2"] {
        assert_eq!(
            placements[pane].repo_key, "/src/app/.git",
            "{pane} took its route and got one spelling: {placements:?}"
        );
    }
}

struct NoGit;

impl FakeGit for NoGit {
    fn identify(&self, _cwd: &str) -> Result<Option<RepoIdentity>> {
        Err("git could not be run: no such file or directory (`git rev-parse`)".to_string())
    }
}

#[test]
fn a_pane_git_would_not_answer_about_is_kept_apart_from_one_that_is_simply_outside() {
    let snapshot = Snapshot {
        version: "0.7.4".into(),
        protocol: 16,
        workspaces: Vec::new(),
        panes: vec![pane("w1:p1", "/home/me")],
    };

    let (placements, unplaced) = resolve_placements(&snapshot, &NoGit);
    assert!(placements.is_empty(), "git answered for nothing");
    assert_eq!(
        unplaced.get("w1:p1").map(String::as_str),
        Some("git could not be run: no such file or directory (`git rev-parse`)"),
        "and said why, in git's own words"
    );

    let (placements, unplaced) = resolve_placements(&snapshot, &IdentifiesNothing);
    assert!(placements.is_empty());
    assert!(unplaced.is_empty(), "git answered, and the answer was no");
}

struct IdentifiesNothing;

impl FakeGit for IdentifiesNothing {
    fn identify(&self, _cwd: &str) -> Result<Option<RepoIdentity>> {
        Ok(None)
    }
}

#[test]
fn recognises_a_pane_that_is_still_inside_its_workspace_checkout() {
    assert!(is_inside("/src/app", "/src/app"));
    assert!(is_inside("/src/app/", "/src/app"));
    assert!(is_inside("/src/app/src/ui", "/src/app"));
}

#[test]
fn rejects_a_sibling_directory_that_merely_shares_a_prefix() {
    assert!(!is_inside("/src/app-tools", "/src/app"));
    assert!(!is_inside("/src/other", "/src/app"));
    assert!(!is_inside("/src", "/src/app"));
}

#[test]
fn every_repository_is_in_one_of_the_two_lists() {
    let mut placements = OrderedMap::new();
    for (pane_id, repo_key, checkout_path) in [
        ("w1:p1", "/src/c/.git", "/src/c"),
        ("w1:p2", "/src/a/.git", "/src/a"),
        ("w1:p3", "/src/b/.git", "/wt/b2"),
        ("w1:p4", "/src/b/.git", "/src/b"),
    ] {
        placements.insert(
            pane_id.to_string(),
            PanePlacement {
                repo_key: repo_key.to_string(),
                checkout_path: checkout_path.to_string(),
            },
        );
    }
    let groups = collect::repositories(&placements);
    let repo = |repo_key: &str| RepoInput {
        repo_key: repo_key.to_string(),
        repo_root: String::new(),
        display_name: String::new(),
        worktrees: Vec::new(),
        refs: Ok(Vec::new()),
    };
    let refused: Vec<Result<_>> =
        vec![Err("it refused".to_string()), Err("it refused too".to_string())];
    let b = collect::outcome(&groups[1], refused, &Ok(None)).expect("all were asked");
    let outcomes = vec![Ok(repo("/src/a/.git")), b, Ok(repo("/src/c/.git"))];
    assert!(collect::outcome(&groups[1], Vec::new(), &Ok(None)).is_none(), "it can be asked");
    let (repos, unlisted) = collect::filed(&groups, outcomes);
    let keys: Vec<&str> = repos.iter().map(|repo| repo.repo_key.as_str()).collect();
    assert_eq!(keys, ["/src/a/.git", "/src/c/.git"]);
    assert_eq!(unlisted.len(), 1);
    assert_eq!(unlisted[0].repo_key, "/src/b/.git");
    assert_eq!(unlisted[0].words, "it refused");
    assert_eq!(
        unlisted[0].panes,
        [
            ("w1:p3".to_string(), "/wt/b2".to_string()),
            ("w1:p4".to_string(), "/src/b".to_string()),
        ]
    );
}
