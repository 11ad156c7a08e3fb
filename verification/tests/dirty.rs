//! Which checkouts hold work nobody has committed.

use std::cell::RefCell;
use std::rc::Rc;

use herdr_worktree_nav::dirty;
use herdr_worktree_nav::dirty::{Walk, WalkReply, MAX_IN_FLIGHT};
use herdr_worktree_nav::model::{
    Branch, Refs, RepoNode, Tree, Trouble, WorkingTree, WorktreeNode,
};

/// The walks that are out, and the answers that nobody has taken in.
struct FakeGit {
    asked: RefCell<Vec<Walk>>,
    replies: RefCell<Vec<WalkReply>>,
}

impl FakeGit {
    fn new() -> Rc<Self> {
        Rc::new(Self {
            asked: RefCell::new(Vec::new()),
            replies: RefCell::new(Vec::new()),
        })
    }

    fn answer(&self, checkout_path: &str, dirty: bool) {
        self.reply(checkout_path, Some(dirty));
    }

    fn refuse(&self, checkout_path: &str) {
        self.reply(checkout_path, None);
    }

    fn reply(&self, checkout_path: &str, dirty: Option<bool>) {
        let mut asked = self.asked.borrow_mut();
        let index = asked
            .iter()
            .position(|walk| walk.checkout_path == checkout_path)
            .unwrap_or_else(|| panic!("nothing asked about {checkout_path}"));
        let walk = asked.remove(index);
        self.replies.borrow_mut().push(WalkReply {
            generation: walk.generation,
            checkout_path: walk.checkout_path,
            dirty,
        });
    }

    fn outstanding(&self) -> usize {
        self.asked.borrow().len()
    }
}

/// The walks of a picker, put to the git above.
struct Dirty {
    dirty: dirty::Dirty,
    git: Rc<FakeGit>,
    in_flight: usize,
}

impl Dirty {
    fn new(git: Rc<FakeGit>) -> Self {
        Self {
            dirty: dirty::Dirty::new(),
            git,
            in_flight: 0,
        }
    }

    fn start(&mut self, walks: Vec<Walk>) {
        self.in_flight += walks.len();
        self.git.asked.borrow_mut().extend(walks);
    }

    fn ask(&mut self, tree: &Tree) {
        let walks = self.dirty.ask(tree);
        self.start(walks);
    }

    fn reask(&mut self, tree: &Tree) {
        let walks = self.dirty.reask(tree);
        self.start(walks);
    }

    fn drain(&mut self) {
        let replies = self.git.replies.take();
        self.in_flight -= replies.len();
        let walks = self.dirty.drain(&replies);
        self.start(walks);
    }

    fn answers(&self) -> Vec<(String, WorkingTree)> {
        self.dirty.answers()
    }

    fn has_answer(&self, checkout_path: &str) -> bool {
        self.answers().iter().any(|(path, _)| path == checkout_path)
    }

    fn is_waiting(&self) -> bool {
        self.dirty.is_waiting()
    }
}

fn until(what: &str, mut ready: impl FnMut() -> bool) {
    for _ in 0..2000 {
        if ready() {
            return;
        }
    }
    panic!("{what}");
}

fn dirty_paths(walk: &Dirty) -> Vec<String> {
    picked(walk, |answer| answer == WorkingTree::Dirty)
}

fn unreadable(walk: &Dirty) -> Vec<String> {
    picked(walk, |answer| answer == WorkingTree::Unreadable)
}

fn answered(walk: &Dirty) -> Vec<String> {
    picked(walk, |_| true)
}

fn picked(walk: &Dirty, keep: impl Fn(WorkingTree) -> bool) -> Vec<String> {
    walk.answers()
        .into_iter()
        .filter(|(_, answer)| keep(*answer))
        .map(|(path, _)| path)
        .collect()
}

fn tree(checkouts: &[&str]) -> Tree {
    Tree {
        repos: vec![RepoNode {
            repo_key: "/src/app/.git".into(),
            repo_root: "/src/app".into(),
            display_name: "me/app".into(),
            refs: Refs::Read,
            worktrees: checkouts
                .iter()
                .map(|path| WorktreeNode {
                    branch: Branch::Out("b".into()),
                    checkout_path: (*path).to_string(),
                    is_primary: false,
                    open_workspace_id: None,
                    track: None,
                    panes: Vec::new(),
                })
                .collect(),
        }],
        ungrouped: Vec::new(),
        trouble: Trouble::none(),
    }
}

fn until_asked(git: &FakeGit, count: usize) {
    until(
        &format!("expected {count} checkouts to be asked about"),
        || git.outstanding() >= count,
    );
}

fn until_answered(dirty: &mut Dirty) {
    until("answers never arrived", || {
        dirty.drain();
        !dirty.is_waiting()
    });
}

#[test]
fn an_answer_from_before_a_reload_is_not_taken_for_a_fresh_one() {
    let git = FakeGit::new();
    let mut dirty = Dirty::new(git.clone());
    let tree = tree(&["/wt/a"]);

    dirty.ask(&tree);
    until_asked(&git, 1);

    dirty.reask(&tree);
    until_asked(&git, 2);

    git.answer("/wt/a", true);
    until("the stale answer never arrived", || {
        dirty.drain();
        dirty.in_flight == 1
    });
    assert!(
        dirty_paths(&dirty).is_empty(),
        "the answer belonged to a question that was withdrawn"
    );

    git.answer("/wt/a", false);
    until_answered(&mut dirty);
    assert!(
        dirty_paths(&dirty).is_empty(),
        "and the fresh answer is clean"
    );
}

#[test]
fn a_checkout_that_has_been_cleaned_stops_being_marked() {
    let git = FakeGit::new();
    let mut dirty = Dirty::new(git.clone());
    let tree = tree(&["/wt/a"]);

    dirty.ask(&tree);
    until_asked(&git, 1);
    git.answer("/wt/a", true);
    until_answered(&mut dirty);
    assert_eq!(dirty_paths(&dirty), vec!["/wt/a".to_string()]);

    dirty.reask(&tree);
    until_asked(&git, 1);
    git.answer("/wt/a", false);
    until_answered(&mut dirty);
    assert!(dirty_paths(&dirty).is_empty());
}

#[test]
fn a_checkout_is_asked_about_once_however_often_the_view_comes_back() {
    let git = FakeGit::new();
    let mut dirty = Dirty::new(git.clone());
    let tree = tree(&["/wt/a", "/wt/b"]);

    dirty.ask(&tree);
    until_asked(&git, 2);
    dirty.ask(&tree);
    dirty.ask(&tree);
    assert_eq!(git.outstanding(), 2, "asked once each, not once per visit");

    git.answer("/wt/a", true);
    git.answer("/wt/b", false);
    until_answered(&mut dirty);
    dirty.ask(&tree);
    assert_eq!(
        git.outstanding(),
        0,
        "and not again once they have answered"
    );
    assert_eq!(dirty_paths(&dirty), vec!["/wt/a".to_string()]);
}

#[test]
fn a_checkout_git_would_not_answer_for_is_not_recorded_as_clean() {
    let git = FakeGit::new();
    let mut dirty = Dirty::new(git.clone());
    let tree = tree(&["/wt/a", "/wt/b"]);

    dirty.ask(&tree);
    until_asked(&git, 2);
    git.refuse("/wt/a");
    git.answer("/wt/b", false);
    until_answered(&mut dirty);

    assert_eq!(
        answered(&dirty),
        vec!["/wt/a".to_string(), "/wt/b".to_string()],
        "both have been asked and both have answered"
    );
    assert!(dirty_paths(&dirty).is_empty(), "neither is marked dirty");
    assert_eq!(
        unreadable(&dirty),
        vec!["/wt/a".to_string()],
        "but only one of them is being called clean"
    );
}

#[test]
fn only_an_answer_that_changes_what_a_row_draws_asks_for_a_redraw() {
    let git = FakeGit::new();
    let mut dirty = Dirty::new(git.clone());
    let tree = tree(&["/wt/a", "/wt/b", "/wt/c"]);
    dirty.ask(&tree);
    until_asked(&git, 3);
    assert!(
        answered(&dirty).is_empty(),
        "asked is not answered, and only the second is a licence to act"
    );

    git.answer("/wt/a", false);
    until("the clean answer never arrived", || {
        dirty.drain();
        dirty.in_flight == 2
    });

    git.answer("/wt/b", true);
    until("the dirty answer never arrived", || {
        dirty.drain();
        dirty.has_answer("/wt/b")
    });

    git.refuse("/wt/c");
    until("the refusal never arrived", || {
        dirty.drain();
        dirty.has_answer("/wt/c")
    });
}

#[test]
fn a_refusal_from_a_withdrawn_round_does_not_keep_a_row_marked() {
    let git = FakeGit::new();
    let mut dirty = Dirty::new(git.clone());
    let tree = tree(&["/wt/a"]);

    dirty.ask(&tree);
    until_asked(&git, 1);
    dirty.reask(&tree);
    until_asked(&git, 2);

    git.refuse("/wt/a");
    until("the stale refusal never arrived", || {
        dirty.drain();
        dirty.in_flight == 1
    });
    assert!(unreadable(&dirty).is_empty(), "it was withdrawn");

    git.answer("/wt/a", false);
    until_answered(&mut dirty);
    assert!(unreadable(&dirty).is_empty());
    assert!(dirty_paths(&dirty).is_empty());
}

#[test]
fn a_checkout_that_has_left_the_tree_is_forgotten() {
    let git = FakeGit::new();
    let mut dirty = Dirty::new(git.clone());

    dirty.ask(&tree(&["/wt/a", "/wt/b"]));
    until_asked(&git, 2);
    git.refuse("/wt/a");
    git.answer("/wt/b", true);
    until_answered(&mut dirty);
    assert_eq!(unreadable(&dirty), vec!["/wt/a".to_string()]);
    assert_eq!(dirty_paths(&dirty), vec!["/wt/b".to_string()]);

    dirty.ask(&tree(&["/wt/b"]));
    assert!(unreadable(&dirty).is_empty());
    assert_eq!(dirty_paths(&dirty), vec!["/wt/b".to_string()]);
    assert_eq!(git.outstanding(), 0, "and nothing is asked twice");
}

#[test]
fn no_more_than_eight_working_trees_are_walked_at_once() {
    let git = FakeGit::new();
    let mut dirty = Dirty::new(git.clone());
    let paths: Vec<String> = (0..20).map(|n| format!("/wt/{n}")).collect();
    let borrowed: Vec<&str> = paths.iter().map(String::as_str).collect();

    dirty.ask(&tree(&borrowed));
    until_asked(&git, MAX_IN_FLIGHT);
    assert_eq!(git.outstanding(), MAX_IN_FLIGHT);

    for path in paths.iter().take(MAX_IN_FLIGHT) {
        git.answer(path, false);
    }

    until("slots never came free", || {
        dirty.drain();
        git.outstanding() >= MAX_IN_FLIGHT
    });
    assert_eq!(
        git.outstanding(),
        MAX_IN_FLIGHT,
        "the rest follow as slots come free, and no faster"
    );
    assert!(dirty.is_waiting());
}

#[test]
fn when_nothing_is_waited_for_exactly_the_last_tree_is_answered_for() {
    let git = FakeGit::new();
    let mut dirty = Dirty::new(git.clone());
    assert!(!dirty.is_waiting());
    assert!(answered(&dirty).is_empty());

    dirty.ask(&tree(&["/wt/a", "/wt/b"]));
    dirty.ask(&tree(&["/wt/b"]));
    dirty.ask(&tree(&["/wt/a", "/wt/b"]));
    assert_eq!(git.outstanding(), 3, "the one that came back is walked again");
    git.answer("/wt/a", true);
    git.answer("/wt/b", false);
    dirty.drain();
    assert!(dirty.is_waiting(), "the second walk is out");
    git.answer("/wt/a", false);
    dirty.drain();
    assert!(!dirty.is_waiting());
    assert_eq!(answered(&dirty), ["/wt/a", "/wt/b"]);
    assert!(dirty_paths(&dirty).is_empty(), "the later answer counts");

    dirty.reask(&tree(&["/wt/b", "/wt/c"]));
    git.refuse("/wt/c");
    dirty.drain();
    assert!(dirty.is_waiting() && !dirty.has_answer("/wt/b"));
    git.answer("/wt/b", true);
    dirty.drain();
    assert!(!dirty.is_waiting());
    assert_eq!(answered(&dirty), ["/wt/b", "/wt/c"]);
}
