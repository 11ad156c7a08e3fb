//! Which branches GitHub has settled.

use herdr_worktree_nav::model::{Refs, RepoNode, Tree, Trouble};
use herdr_worktree_nav::port::{PullRequestOutcome, SettledPullRequest, SettledPullRequests, Slug};
use herdr_worktree_nav::settled::{after_gh, after_slug, Answer, Settled, SettledReply};

fn tree(roots: &[&str]) -> Tree {
    Tree {
        repos: roots
            .iter()
            .map(|root| RepoNode {
                repo_key: format!("{root}/.git"),
                repo_root: root.to_string(),
                display_name: root.trim_start_matches("/src/").to_string(),
                refs: Refs::Read,
                worktrees: Vec::new(),
            })
            .collect(),
        ungrouped: Vec::new(),
        trouble: Trouble::none(),
    }
}

fn reply(generation: u64, root: &str, answer: Answer) -> SettledReply {
    SettledReply { generation, repo_root: root.to_string(), answer }
}

fn merged() -> SettledPullRequests {
    SettledPullRequests::All(vec![SettledPullRequest {
        number: 9,
        head_ref: "dev".to_string(),
        from_a_fork: false,
        outcome: PullRequestOutcome::Merged,
    }])
}

#[test]
fn a_repository_is_asked_about_once() {
    let tree = tree(&["/src/app", "/src/site"]);
    let mut settled = Settled::new();
    let asked = settled.ask(&tree);
    assert_eq!(
        asked.iter().map(|question| question.repo_root.as_str()).collect::<Vec<_>>(),
        ["/src/app", "/src/site"]
    );
    assert!(settled.ask(&tree).is_empty());
    assert!(settled.is_waiting(&tree));
    assert_eq!(settled.answers(&tree).len(), 0, "asked is not answered");

    let generation = asked[0].generation;
    assert_eq!(
        settled.drain(vec![
            reply(generation, "/src/app", Answer::Answered(merged())),
            reply(generation, "/src/site", Answer::Refused("no auth".to_string())),
        ]),
        2
    );
    assert!(!settled.is_waiting(&tree));
    let answers = settled.answers(&tree);
    assert_eq!(answers.get("/src/app"), Some(&Some(merged())));
    assert_eq!(answers.get("/src/site"), Some(&None));
    assert_eq!(settled.trouble(&tree).as_deref(), Some("site: no auth"));
}

#[test]
fn an_answer_from_before_a_reload_is_thrown_away() {
    let tree = tree(&["/src/app"]);
    let mut settled = Settled::new();
    let old = settled.ask(&tree)[0].generation;
    settled.forget();
    assert_eq!(settled.ask(&tree).len(), 1, "and it is asked again");
    settled.drain(vec![reply(old, "/src/app", Answer::Answered(merged()))]);
    assert!(settled.is_waiting(&tree));
}

#[test]
fn only_what_was_refused_is_forgotten_when_a_sweep_is_entered() {
    let tree = tree(&["/src/app", "/src/site", "/src/local"]);
    let mut settled = Settled::new();
    let generation = settled.ask(&tree)[0].generation;
    settled.drain(vec![
        reply(generation, "/src/app", Answer::Answered(merged())),
        reply(generation, "/src/site", Answer::Refused("no auth".to_string())),
        reply(generation, "/src/local", Answer::Unaskable("no remote".to_string())),
    ]);
    settled.forget_failures();
    let again = settled.ask(&tree);
    assert_eq!(
        again.iter().map(|question| question.repo_root.as_str()).collect::<Vec<_>>(),
        ["/src/site"]
    );
}

#[test]
fn a_repository_github_cannot_be_asked_about_is_told_from_one_git_could_not_name() {
    let slug = Slug::owner_repo("me", "app");
    assert_eq!(after_slug(Ok(slug.clone())).ok(), slug);
    assert_eq!(
        after_slug(Ok(None)),
        Err(Answer::Unaskable("no GitHub remote to ask about".to_string()))
    );
    assert_eq!(
        after_slug(Err("fatal:\n  bad config".to_string())),
        Err(Answer::Refused(
            "git could not name the repository: fatal: bad config".to_string()
        ))
    );
    assert_eq!(after_gh(Ok(merged())), Answer::Answered(merged()));
    assert_eq!(
        after_gh(Err("gh would not answer".to_string())),
        Answer::Refused("gh would not answer".to_string())
    );
}
