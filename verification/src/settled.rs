//! What became of the pull requests of each repository: who is asked, who has answered, and what
//! stands in the way.

use vstd::prelude::*;

use crate::model::{RepoNode, RepoNodeView, Tree};
use crate::ordered::OrderedMap;
use crate::port::{
    SettledPullRequest, SettledPullRequests, SettledPullRequestsView, Slug,
};
use crate::shapes;
use crate::shapes::reversed;
use crate::text;
use crate::text::{decimal_text, folded, same};

verus! {

/// What is known of the pull requests of a repository.
#[derive(Debug, Clone, PartialEq, Eq)]
pub enum Answer {
    /// The question is out.
    Asking,
    /// There is nobody to ask, for this reason.
    Unaskable(String),
    /// The question was refused, with these words.
    Refused(String),
    Answered(SettledPullRequests),
}

#[verifier::ext_equal]
pub enum AnswerView {
    Asking,
    Unaskable(Seq<char>),
    Refused(Seq<char>),
    Answered(SettledPullRequestsView),
}

impl View for Answer {
    type V = AnswerView;

    open spec fn view(&self) -> AnswerView {
        match self {
            Answer::Asking => AnswerView::Asking,
            Answer::Unaskable(why) => AnswerView::Unaskable(why@),
            Answer::Refused(why) => AnswerView::Refused(why@),
            Answer::Answered(settled) => AnswerView::Answered(settled@),
        }
    }
}

/// A question about one repository, to be put.
#[derive(Debug, Clone, PartialEq, Eq)]
pub struct Question {
    pub generation: u64,
    pub repo_root: String,
}

/// What came back for one repository.
#[derive(Debug, Clone, PartialEq, Eq)]
pub struct SettledReply {
    pub generation: u64,
    pub repo_root: String,
    pub answer: Answer,
}

/// The questions about the pull requests of the repositories, and the answers so far.
pub struct Settled {
    answers: OrderedMap<Answer>,
    generation: u64,
}

#[verifier::ext_equal]
pub struct SettledView {
    /// Which round of questions this is. Answers to an earlier round do not count.
    pub generation: u64,
    pub answers: Map<Seq<char>, AnswerView>,
}

impl View for Settled {
    type V = SettledView;

    closed spec fn view(&self) -> SettledView {
        SettledView { generation: self.generation, answers: shapes::map_views(self.answers@) }
    }
}

// ---------------------------------------------------------------- one question

/// What git's name for a repository leaves to do: to ask GitHub about it, or nothing.
pub open spec fn after_slug_of(slug: Result<Option<Seq<char>>, Seq<char>>) -> Result<
    Seq<char>,
    AnswerView,
> {
    match slug {
        Ok(Some(name)) => Ok(name),
        Ok(None) => Err(AnswerView::Unaskable("no GitHub remote to ask about"@)),
        Err(error) => Err(
            AnswerView::Refused(text::one_line("git could not name the repository: "@ + error)),
        ),
    }
}

/// What git's name for a repository leaves to do: to ask GitHub about it, or nothing.
pub fn after_slug(slug: Result<Option<Slug>, String>) -> (next: Result<Slug, Answer>)
    ensures
        match next {
            Ok(name) => after_slug_of(shapes::outcome_opt(slug)) == Ok::<_, AnswerView>(name@),
            Err(answer) => after_slug_of(shapes::outcome_opt(slug)) == Err::<Seq<char>, _>(answer@),
        },
{
    match slug {
        Ok(Some(name)) => Ok(name),
        Ok(None) => Err(Answer::Unaskable("no GitHub remote to ask about".to_owned())),
        Err(error) => {
            let mut words = "git could not name the repository: ".to_owned();
            words.append(error.as_str());
            Err(Answer::Refused(folded(words.as_str())))
        },
    }
}

/// What GitHub's answer says of a repository.
pub fn after_gh(answer: Result<SettledPullRequests, String>) -> (settled: Answer)
    ensures
        settled@ == match shapes::outcome(answer) {
            Ok(list) => AnswerView::Answered(list),
            Err(refusal) => AnswerView::Refused(refusal),
        },
{
    match answer {
        Ok(list) => Answer::Answered(list),
        Err(refusal) => Answer::Refused(refusal),
    }
}

// ---------------------------------------------------------------- all questions

/// The roots of the repositories of a tree.
pub open spec fn roots_of(repos: Seq<RepoNodeView>) -> Seq<Seq<char>> {
    Seq::new(repos.len(), |i: int| repos[i].repo_root)
}

/// The state with every repository among `roots` asked about, and the questions that are new.
pub open spec fn enrolled(state: SettledView, roots: Seq<Seq<char>>) -> (SettledView, Seq<Seq<char>>)
    decreases roots.len(),
{
    if roots.len() == 0 {
        (state, seq![])
    } else {
        let (so_far, questions) = enrolled(state, roots.drop_last());
        if so_far.answers.contains_key(roots.last()) {
            (so_far, questions)
        } else {
            (
                SettledView {
                    answers: so_far.answers.insert(roots.last(), AnswerView::Asking),
                    ..so_far
                },
                questions.push(roots.last()),
            )
        }
    }
}

/// The answers that stay when a tree is asked about: those about its repositories, and those that
/// are still to come.
pub open spec fn answers_kept(answers: Map<Seq<char>, AnswerView>, roots: Seq<Seq<char>>) -> Map<
    Seq<char>,
    AnswerView,
> {
    Map::new(
        |k: Seq<char>| answers.contains_key(k) && (roots.contains(k) || answers[k] is Asking),
        |k: Seq<char>| answers[k],
    )
}

/// The state once the repositories of a tree are asked about, and the questions that puts.
pub open spec fn asked(state: SettledView, roots: Seq<Seq<char>>) -> (SettledView, Seq<Seq<char>>) {
    enrolled(SettledView { answers: answers_kept(state.answers, roots), ..state }, roots)
}

/// What the questions to put are.
pub open spec fn question_views(questions: Seq<Question>) -> Seq<(u64, Seq<char>)> {
    Seq::new(questions.len(), |i: int| (questions[i].generation, questions[i].repo_root@))
}

/// The answers without the refusals.
pub open spec fn without_refusals(answers: Map<Seq<char>, AnswerView>) -> Map<Seq<char>, AnswerView> {
    Map::new(
        |k: Seq<char>| answers.contains_key(k) && !(answers[k] is Refused),
        |k: Seq<char>| answers[k],
    )
}

/// The state with one reply read: its answer counts where it is of this round and about a
/// repository that was asked about.
pub open spec fn replied(state: SettledView, reply: SettledReply) -> SettledView {
    if reply.generation == state.generation && state.answers.contains_key(reply.repo_root@) {
        SettledView { answers: state.answers.insert(reply.repo_root@, reply.answer@), ..state }
    } else {
        state
    }
}

/// The state with the replies read.
pub open spec fn drained(state: SettledView, replies: Seq<SettledReply>) -> SettledView
    decreases replies.len(),
{
    if replies.len() == 0 {
        state
    } else {
        replied(drained(state, replies.drop_last()), replies.last())
    }
}

/// Whether a question about a repository is out.
pub open spec fn is_asking(answers: Map<Seq<char>, AnswerView>, root: Seq<char>) -> bool {
    answers.contains_key(root) && answers[root] is Asking
}

/// What is known of a repository that answered: its pull requests, or nothing where nobody could
/// say.
pub open spec fn known(answer: AnswerView) -> Option<SettledPullRequestsView> {
    match answer {
        AnswerView::Answered(list) => Some(list),
        _ => None,
    }
}

/// The repositories of a tree that answered, with what is known of them.
pub open spec fn known_answers(answers: Map<Seq<char>, AnswerView>, roots: Seq<Seq<char>>) -> Map<
    Seq<char>,
    Option<SettledPullRequestsView>,
> {
    Map::new(
        |k: Seq<char>| roots.contains(k) && answers.contains_key(k) && !(answers[k] is Asking),
        |k: Seq<char>| known(answers[k]),
    )
}

/// Why a repository has no answer, where it was refused, or where there is nobody to ask.
pub open spec fn why(answers: Map<Seq<char>, AnswerView>, root: Seq<char>, refused: bool) -> Option<
    Seq<char>,
> {
    if !answers.contains_key(root) {
        None
    } else {
        match answers[root] {
            AnswerView::Refused(words) => if refused {
                Some(words)
            } else {
                None
            },
            AnswerView::Unaskable(words) => if refused {
                None
            } else {
                Some(words)
            },
            _ => None,
        }
    }
}

/// The first repository that was refused, or that there is nobody to ask about, and why.
pub open spec fn first_why(
    answers: Map<Seq<char>, AnswerView>,
    repos: Seq<RepoNodeView>,
    refused: bool,
) -> Option<Seq<char>>
    decreases repos.len(),
{
    if repos.len() == 0 {
        None
    } else {
        match first_why(answers, repos.drop_last(), refused) {
            Some(words) => Some(words),
            None => match why(answers, repos.last().repo_root, refused) {
                Some(words) => Some(repos.last().display_name + ": "@ + words),
                None => None,
            },
        }
    }
}

/// How many repositories were refused, or have nobody to ask about.
pub open spec fn in_trouble(answers: Map<Seq<char>, AnswerView>, repos: Seq<RepoNodeView>) -> nat
    decreases repos.len(),
{
    if repos.len() == 0 {
        0
    } else {
        let root = repos.last().repo_root;
        in_trouble(answers, repos.drop_last()) + if why(answers, root, true) is Some || why(
            answers,
            root,
            false,
        ) is Some {
            1nat
        } else {
            0nat
        }
    }
}

/// What stands in the way of an answer: the first refusal, or the first repository that there is
/// nobody to ask about, and how many more there are.
pub open spec fn trouble_text(answers: Map<Seq<char>, AnswerView>, repos: Seq<RepoNodeView>) -> Option<
    Seq<char>,
> {
    let first = match first_why(answers, repos, true) {
        Some(words) => Some(words),
        None => first_why(answers, repos, false),
    };
    match first {
        None => None,
        Some(words) => if in_trouble(answers, repos) == 1 {
            Some(words)
        } else {
            Some(
                words + " (+"@ + text::decimal((in_trouble(answers, repos) - 1) as nat)
                    + " more)"@,
            )
        },
    }
}

/// A copy of a list of pull requests.
fn copied_list(list: &Vec<SettledPullRequest>) -> (out: Vec<SettledPullRequest>)
    ensures
        shapes::views(out@) == shapes::views(list@),
{
    let ghost all = shapes::views(list@);
    let mut out: Vec<SettledPullRequest> = Vec::new();
    let mut i: usize = 0;
    while i < list.len()
        invariant
            i <= list@.len(),
            all == shapes::views(list@),
            shapes::views(out@) == all.take(i as int),
        decreases list@.len() - i,
    {
        let one = SettledPullRequest {
            number: list[i].number,
            head_ref: list[i].head_ref.clone(),
            from_a_fork: list[i].from_a_fork,
            outcome: list[i].outcome,
        };
        proof {
            shapes::lemma_views_push(out@, one);
            assert(all.take(i + 1) =~= all.take(i as int).push(one@));
        }
        out.push(one);
        i = i + 1;
    }
    assert(all.take(i as int) =~= all);
    out
}

fn copied_settled(settled: &SettledPullRequests) -> (out: SettledPullRequests)
    ensures
        out@ == settled@,
{
    match settled {
        SettledPullRequests::All(list) => SettledPullRequests::All(copied_list(list)),
        SettledPullRequests::Window(list) => SettledPullRequests::Window(copied_list(list)),
    }
}

/// Whether one of the repositories has this root.
fn has_root(repos: &Vec<RepoNode>, root: &str) -> (has: bool)
    ensures
        has == roots_of(shapes::views(repos@)).contains(root@),
{
    let ghost roots = roots_of(shapes::views(repos@));
    let mut i: usize = 0;
    while i < repos.len()
        invariant
            i <= repos@.len(),
            roots == roots_of(shapes::views(repos@)),
            forall|j: int| 0 <= j < i ==> #[trigger] roots[j] != root@,
        decreases repos@.len() - i,
    {
        if same(repos[i].repo_root.as_str(), root) {
            assert(roots[i as int] == root@);
            return true;
        }
        i = i + 1;
    }
    false
}

/// What optional pull requests stand for.
pub open spec fn known_map(m: Map<Seq<char>, Option<SettledPullRequests>>) -> Map<
    Seq<char>,
    Option<SettledPullRequestsView>,
> {
    m.map_values(|o: Option<SettledPullRequests>| shapes::opt(o))
}

impl Settled {
    /// No question asked yet.
    pub fn new() -> (settled: Settled)
        ensures
            settled@ == (SettledView { generation: 0, answers: Map::empty() }),
    {
        let settled = Settled { answers: OrderedMap::new(), generation: 0 };
        assert(settled@.answers =~= Map::empty());
        settled
    }

    /// Asks about every repository of the tree that was not asked about yet. Gives the questions
    /// to put.
    pub fn ask(&mut self, tree: &Tree) -> (questions: Vec<Question>)
        ensures
            final(self)@ == asked(old(self)@, roots_of(shapes::views(tree.repos@))).0,
            question_views(questions@) == Seq::new(
                asked(old(self)@, roots_of(shapes::views(tree.repos@))).1.len(),
                |i: int|
                    (
                        old(self)@.generation,
                        asked(old(self)@, roots_of(shapes::views(tree.repos@))).1[i],
                    ),
            ),
    {
        let ghost before = self@;
        let ghost roots = roots_of(shapes::views(tree.repos@));
        self.keep_asked(&tree.repos);
        let ghost kept = self@;
        let mut questions: Vec<Question> = Vec::new();
        let mut i: usize = 0;
        assert(roots.take(0) =~= seq![]);
        while i < tree.repos.len()
            invariant
                i <= tree.repos@.len(),
                roots == roots_of(shapes::views(tree.repos@)),
                self@.generation == before.generation,
                self@ == enrolled(kept, roots.take(i as int)).0,
                question_views(questions@) == Seq::new(
                    enrolled(kept, roots.take(i as int)).1.len(),
                    |j: int| (before.generation, enrolled(kept, roots.take(i as int)).1[j]),
                ),
            decreases tree.repos@.len() - i,
        {
            let root = &tree.repos[i].repo_root;
            assert(roots.take(i + 1).drop_last() =~= roots.take(i as int));
            assert(roots.take(i + 1).last() == root@);
            let ghost so_far = question_views(questions@);
            if !self.answers.has(root.as_str()) {
                proof {
                    shapes::lemma_map_views_insert(self.answers@, root@, Answer::Asking);
                }
                self.answers.insert(root.clone(), Answer::Asking);
                questions.push(Question { generation: self.generation, repo_root: root.clone() });
                assert(question_views(questions@) =~= so_far.push((before.generation, root@)));
            }
            assert(question_views(questions@) =~= Seq::new(
                enrolled(kept, roots.take(i + 1)).1.len(),
                |j: int| (before.generation, enrolled(kept, roots.take(i + 1)).1[j]),
            ));
            i = i + 1;
        }
        assert(roots.take(i as int) =~= roots);
        questions
    }

    /// Keeps what is about the repositories, and the questions that are out.
    fn keep_asked(&mut self, repos: &Vec<RepoNode>)
        ensures
            final(self)@ == (SettledView {
                answers: answers_kept(old(self)@.answers, roots_of(shapes::views(repos@))),
                ..old(self)@
            }),
    {
        let ghost before = self@;
        let ghost roots = roots_of(shapes::views(repos@));
        let ghost keys = self.answers.keys();
        let mut marks: Vec<bool> = Vec::new();
        let n = self.answers.len();
        let mut i: usize = 0;
        while i < n
            invariant
                i <= n,
                n == keys.len(),
                keys == self.answers.keys(),
                self@ == before,
                roots == roots_of(shapes::views(repos@)),
                marks@.len() == i,
                forall|j: int|
                    0 <= j < i ==> #[trigger] marks@[j] == (roots.contains(keys[j])
                        || before.answers[keys[j]] is Asking),
            decreases n - i,
        {
            let asking = match self.answers.value_at(i) {
                Answer::Asking => true,
                _ => false,
            };
            marks.push(has_root(repos, self.answers.key_at(i)) || asking);
            i = i + 1;
        }
        self.answers.keep(&marks);
        proof {
            lemma_marks(before.answers, keys, marks@, self@.answers);
            assert(self@.answers =~= answers_kept(before.answers, roots));
        }
    }

    /// Forgets every answer: what is still to come is of a round that no longer counts.
    pub fn forget(&mut self)
        ensures
            final(self)@ == (SettledView {
                generation: old(self)@.generation.wrapping_add(1),
                answers: Map::empty(),
            }),
    {
        self.generation = self.generation.wrapping_add(1);
        self.answers = OrderedMap::new();
        assert(self@.answers =~= Map::empty());
    }

    /// Forgets the refusals, so that they are asked about again.
    pub fn forget_failures(&mut self)
        ensures
            final(self)@ == (SettledView {
                answers: without_refusals(old(self)@.answers),
                ..old(self)@
            }),
    {
        let ghost before = self@;
        let ghost keys = self.answers.keys();
        let mut marks: Vec<bool> = Vec::new();
        let n = self.answers.len();
        let mut i: usize = 0;
        while i < n
            invariant
                i <= n,
                n == keys.len(),
                keys == self.answers.keys(),
                self@ == before,
                marks@.len() == i,
                forall|j: int|
                    0 <= j < i ==> #[trigger] marks@[j] == !(before.answers[keys[j]] is Refused),
            decreases n - i,
        {
            let refused = match self.answers.value_at(i) {
                Answer::Refused(_) => true,
                _ => false,
            };
            marks.push(!refused);
            i = i + 1;
        }
        self.answers.keep(&marks);
        proof {
            lemma_marks(before.answers, keys, marks@, self@.answers);
            assert(self@.answers =~= without_refusals(before.answers));
        }
    }

    /// Reads what came back. Gives how many replies that were.
    pub fn drain(&mut self, replies: Vec<SettledReply>) -> (received: usize)
        ensures
            final(self)@ == drained(old(self)@, replies@),
            received == replies@.len(),
    {
        let ghost before = self@;
        let ghost all = replies@;
        let count = replies.len();
        let mut back = reversed(replies);
        let mut i: usize = 0;
        assert(back@.reverse() =~= all.skip(0));
        assert(all.take(0) =~= seq![]);
        while i < count
            invariant
                i <= count,
                count == all.len(),
                back@.reverse() == all.skip(i as int),
                self@ == drained(before, all.take(i as int)),
            decreases count - i,
        {
            let ghost left = back@;
            assert(left.reverse().len() == left.len());
            assert(all.take(i + 1).drop_last() =~= all.take(i as int));
            match back.pop() {
                Some(reply) => {
                    assert(left.reverse()[0] == reply);
                    assert(reply == all[i as int]);
                    assert(back@.reverse() =~= left.reverse().skip(1));
                    assert(all.skip(i as int).skip(1) =~= all.skip(i + 1));
                    assert(all.take(i + 1).last() == reply);
                    if reply.generation == self.generation && self.answers.has(
                        reply.repo_root.as_str(),
                    ) {
                        proof {
                            shapes::lemma_map_views_insert(
                                self.answers@,
                                reply.repo_root@,
                                reply.answer,
                            );
                        }
                        self.answers.insert(reply.repo_root, reply.answer);
                    }
                },
                None => {},
            }
            i = i + 1;
        }
        assert(all.take(i as int) =~= all);
        count
    }

    /// The repositories of the tree that answered: with their pull requests, or with nothing where
    /// nobody could say.
    pub fn answers(&self, tree: &Tree) -> (answers: OrderedMap<Option<SettledPullRequests>>)
        ensures
            known_map(answers@) == known_answers(
                self@.answers,
                roots_of(shapes::views(tree.repos@)),
            ),
    {
        let ghost roots = roots_of(shapes::views(tree.repos@));
        let mut answers: OrderedMap<Option<SettledPullRequests>> = OrderedMap::new();
        assert(known_map(answers@) =~= known_answers(self@.answers, roots.take(0)));
        let mut i: usize = 0;
        while i < tree.repos.len()
            invariant
                i <= tree.repos@.len(),
                roots == roots_of(shapes::views(tree.repos@)),
                known_map(answers@) == known_answers(self@.answers, roots.take(i as int)),
            decreases tree.repos@.len() - i,
        {
            let root = &tree.repos[i].repo_root;
            assert(roots[i as int] == root@);
            assert(roots.take(i + 1) =~= roots.take(i as int).push(root@));
            let ghost so_far = answers@;
            let found: Option<Option<SettledPullRequests>> = match self.answers.get(
                root.as_str(),
            ) {
                None => None,
                Some(Answer::Asking) => None,
                Some(Answer::Unaskable(_)) => Some(None),
                Some(Answer::Refused(_)) => Some(None),
                Some(Answer::Answered(list)) => Some(Some(copied_settled(list))),
            };
            match found {
                None => {},
                Some(value) => {
                    assert(known_map(so_far.insert(root@, value)) =~= known_map(so_far).insert(
                        root@,
                        shapes::opt(value),
                    ));
                    assert(shapes::opt(value) == known(self@.answers[root@]));
                    answers.insert(root.clone(), value);
                },
            }
            proof {
                let now = roots.take(i + 1);
                assert forall|k: Seq<char>| #[trigger]
                    now.contains(k) <==> roots.take(i as int).contains(k) || k == root@ by {
                    if roots.take(i as int).contains(k) {
                        let j = choose|j: int| 0 <= j < i && roots.take(i as int)[j] == k;
                        assert(now[j] == k);
                    }
                    assert(now[i as int] == root@);
                }
                assert(known_map(answers@) =~= known_answers(self@.answers, now));
            }
            i = i + 1;
        }
        assert(roots.take(i as int) =~= roots);
        answers
    }

    /// Whether a question about a repository of the tree is out.
    pub fn is_waiting(&self, tree: &Tree) -> (waiting: bool)
        ensures
            waiting == exists|i: int|
                0 <= i < tree.repos@.len() && is_asking(
                    self@.answers,
                    (#[trigger] tree.repos@[i]).repo_root@,
                ),
    {
        let mut i: usize = 0;
        while i < tree.repos.len()
            invariant
                i <= tree.repos@.len(),
                forall|j: int|
                    0 <= j < i ==> !is_asking(
                        self@.answers,
                        (#[trigger] tree.repos@[j]).repo_root@,
                    ),
            decreases tree.repos@.len() - i,
        {
            match self.answers.get(tree.repos[i].repo_root.as_str()) {
                Some(Answer::Asking) => {
                    assert(is_asking(self@.answers, tree.repos@[i as int].repo_root@));
                    return true;
                },
                _ => {},
            }
            i = i + 1;
        }
        false
    }

    /// What stands in the way of an answer about the tree.
    pub fn trouble(&self, tree: &Tree) -> (trouble: Option<String>)
        ensures
            shapes::opt(trouble) == trouble_text(self@.answers, shapes::views(tree.repos@)),
    {
        let ghost all = shapes::views(tree.repos@);
        let ghost known = self@.answers;
        let mut refused: Option<String> = None;
        let mut unaskable: Option<String> = None;
        let mut count: usize = 0;
        let mut i: usize = 0;
        while i < tree.repos.len()
            invariant
                i <= tree.repos@.len(),
                all == shapes::views(tree.repos@),
                known == self@.answers,
                count <= i,
                count == in_trouble(known, all.take(i as int)),
                count > 0 <==> refused is Some || unaskable is Some,
                shapes::opt(refused) == first_why(known, all.take(i as int), true),
                shapes::opt(unaskable) == first_why(known, all.take(i as int), false),
            decreases tree.repos@.len() - i,
        {
            let repo = &tree.repos[i];
            assert(all.take(i + 1).drop_last() =~= all.take(i as int));
            assert(all.take(i + 1).last() == repo@);
            match self.answers.get(repo.repo_root.as_str()) {
                Some(Answer::Refused(words)) => {
                    count = count + 1;
                    if refused.is_none() {
                        refused = Some(named(repo.display_name.as_str(), words.as_str()));
                    }
                },
                Some(Answer::Unaskable(words)) => {
                    count = count + 1;
                    if unaskable.is_none() {
                        unaskable = Some(named(repo.display_name.as_str(), words.as_str()));
                    }
                },
                _ => {},
            }
            i = i + 1;
        }
        assert(all.take(i as int) =~= all);
        let first = match refused {
            Some(words) => Some(words),
            None => unaskable,
        };
        match first {
            None => None,
            Some(words) => if count == 1 {
                Some(words)
            } else {
                let mut out = words;
                out.append(" (+");
                out.append(decimal_text((count - 1) as u64).as_str());
                out.append(" more)");
                Some(out)
            },
        }
    }
}

/// The name of a repository, and why it has no answer.
fn named(display_name: &str, words: &str) -> (out: String)
    ensures
        out@ == display_name@ + ": "@ + words@,
{
    let mut out = display_name.to_owned();
    out.append(": ");
    out.append(words);
    out
}

/// What `OrderedMap::keep` leaves of a map, by the marks of its keys.
proof fn lemma_marks(
    was: Map<Seq<char>, AnswerView>,
    keys: Seq<Seq<char>>,
    marks: Seq<bool>,
    now: Map<Seq<char>, AnswerView>,
)
    requires
        keys.len() == marks.len(),
        forall|k: Seq<char>| #[trigger] keys.contains(k) <==> was.contains_key(k),
        text::ascending(keys),
        forall|k: Seq<char>| #[trigger]
            now.contains_key(k) <==> exists|i: int|
                0 <= i < marks.len() && marks[i] && #[trigger] keys[i] == k,
    ensures
        forall|i: int| 0 <= i < keys.len() ==> (#[trigger] marks[i] <==> now.contains_key(keys[i])),
        forall|k: Seq<char>| #[trigger] now.contains_key(k) ==> was.contains_key(k),
        forall|k: Seq<char>| was.contains_key(k) ==> exists|i: int|
            0 <= i < keys.len() && #[trigger] keys[i] == k,
{
    assert forall|i: int| 0 <= i < keys.len() implies (#[trigger] marks[i] <==> now.contains_key(
        keys[i],
    )) by {
        if now.contains_key(keys[i]) {
            let j = choose|j: int| 0 <= j < marks.len() && marks[j] && #[trigger] keys[j] == keys[i];
            text::lemma_before_total(keys[i], keys[j]);
            if i < j {
                assert(text::before(keys[i], keys[j]));
            } else if j < i {
                assert(text::before(keys[j], keys[i]));
            }
        }
    }
    assert forall|k: Seq<char>| #[trigger] now.contains_key(k) implies was.contains_key(k) by {
        let j = choose|j: int| 0 <= j < marks.len() && marks[j] && #[trigger] keys[j] == k;
        assert(keys.contains(k));
    }
    assert forall|k: Seq<char>| was.contains_key(k) implies exists|i: int|
        0 <= i < keys.len() && #[trigger] keys[i] == k by {
        assert(keys.contains(k));
    }
}

// ---------------------------------------------------------------- laws

/// A reply to an earlier round changes nothing.
pub proof fn law_late_reply_changes_nothing(state: SettledView, reply: SettledReply)
    requires
        reply.generation != state.generation,
    ensures
        replied(state, reply) == state,
{
}

/// After the refusals are forgotten there are none, and everything else is as it was.
pub proof fn law_only_refusals_are_forgotten(state: SettledView, root: Seq<char>)
    ensures
        without_refusals(state.answers).contains_key(root) <==> state.answers.contains_key(root)
            && !(state.answers[root] is Refused),
        without_refusals(state.answers).contains_key(root) ==> without_refusals(
            state.answers,
        )[root] == state.answers[root],
{
}

/// The repositories are taken one after the other, and so are the questions about them.
pub proof fn law_repositories_are_asked_about_in_order(
    state: SettledView,
    first: Seq<Seq<char>>,
    second: Seq<Seq<char>>,
)
    ensures
        enrolled(state, first + second).0 == enrolled(enrolled(state, first).0, second).0,
        enrolled(state, first + second).1 == enrolled(state, first).1 + enrolled(
            enrolled(state, first).0,
            second,
        ).1,
    decreases second.len(),
{
    let both = first + second;
    if second.len() == 0 {
        assert(both =~= first);
    } else {
        law_repositories_are_asked_about_in_order(state, first, second.drop_last());
        assert(both.drop_last() =~= first + second.drop_last());
        assert(both.last() == second.last());
    }
}

/// A question is put about exactly the repositories of which nothing is known yet, and about none
/// of them twice. What was known stays; the others are known to be asked about.
proof fn lemma_enrolled(state: SettledView, roots: Seq<Seq<char>>)
    ensures
        enrolled(state, roots).0.generation == state.generation,
        forall|k: Seq<char>| #[trigger]
            enrolled(state, roots).0.answers.contains_key(k) <==> state.answers.contains_key(k)
                || roots.contains(k),
        forall|k: Seq<char>|
            state.answers.contains_key(k) ==> #[trigger] enrolled(state, roots).0.answers[k]
                == state.answers[k],
        forall|k: Seq<char>|
            !state.answers.contains_key(k) && roots.contains(k) ==> #[trigger] enrolled(
                state,
                roots,
            ).0.answers[k] is Asking,
        forall|k: Seq<char>| #[trigger]
            enrolled(state, roots).1.contains(k) <==> roots.contains(k)
                && !state.answers.contains_key(k),
        enrolled(state, roots).1.no_duplicates(),
    decreases roots.len(),
{
    if roots.len() > 0 {
        let less = roots.drop_last();
        let last = roots.last();
        lemma_enrolled(state, less);
        let (so_far, questions) = enrolled(state, less);
        assert forall|k: Seq<char>| roots.contains(k) <==> less.contains(k) || k == last by {
            if roots.contains(k) {
                let i = choose|i: int| 0 <= i < roots.len() && roots[i] == k;
                if i < roots.len() - 1 {
                    assert(less[i] == k);
                }
            }
            if less.contains(k) {
                let i = choose|i: int| 0 <= i < less.len() && less[i] == k;
                assert(roots[i] == k);
            }
            if k == last {
                assert(roots[roots.len() - 1] == k);
            }
        }
        if !so_far.answers.contains_key(last) {
            let after = questions.push(last);
            assert(!questions.contains(last));
            assert forall|k: Seq<char>| #[trigger]
                after.contains(k) <==> questions.contains(k) || k == last by {
                if questions.contains(k) {
                    let i = choose|i: int| 0 <= i < questions.len() && questions[i] == k;
                    assert(after[i] == k);
                }
                if k == last {
                    assert(after[questions.len() as int] == k);
                }
            }
            assert forall|i: int, j: int|
                0 <= i < after.len() && 0 <= j < after.len() && i != j implies after[i]
                != after[j] by {
                if i == questions.len() {
                    assert(questions.contains(questions[j]));
                } else if j == questions.len() {
                    assert(questions.contains(questions[i]));
                }
            }
        }
    }
}

/// When a tree is asked about, a question is put about exactly those of its repositories of which
/// nothing is known, once each. What is known of its repositories stays, an answer about another
/// repository is dropped, and a question about one that is still out is not forgotten.
pub proof fn law_each_repository_is_asked_about_once(
    state: SettledView,
    roots: Seq<Seq<char>>,
    root: Seq<char>,
)
    ensures
        asked(state, roots).0.generation == state.generation,
        asked(state, roots).1.no_duplicates(),
        asked(state, roots).1.contains(root) <==> roots.contains(root)
            && !state.answers.contains_key(root),
        asked(state, roots).1.contains(root) ==> asked(state, roots).0.answers[root] is Asking,
        asked(state, roots).0.answers.contains_key(root) <==> roots.contains(root) || (
        state.answers.contains_key(root) && state.answers[root] is Asking),
        state.answers.contains_key(root) && asked(state, roots).0.answers.contains_key(root)
            ==> asked(state, roots).0.answers[root] == state.answers[root],
{
    let kept = SettledView { answers: answers_kept(state.answers, roots), ..state };
    lemma_enrolled(kept, roots);
    assert(asked(state, roots) == enrolled(kept, roots));
    assert(kept.answers.contains_key(root) <==> state.answers.contains_key(root) && (
    roots.contains(root) || state.answers[root] is Asking));
}

/// The last reply of this round about a repository that was asked about is what is known of it;
/// a reply says nothing of any other repository, and the replies are read one after the other.
pub proof fn law_reply_is_about_its_own_repository(
    state: SettledView,
    first: Seq<SettledReply>,
    second: Seq<SettledReply>,
    reply: SettledReply,
    other: Seq<char>,
)
    ensures
        drained(state, first + second) == drained(drained(state, first), second),
        drained(state, seq![]) == state,
        drained(state, seq![reply]).generation == state.generation,
        drained(state, seq![reply]).answers.dom() == state.answers.dom(),
        reply.generation == state.generation && state.answers.contains_key(reply.repo_root@)
            ==> drained(state, seq![reply]).answers[reply.repo_root@] == reply.answer@,
        other != reply.repo_root@ || reply.generation != state.generation ==> drained(
            state,
            seq![reply],
        ).answers[other] == state.answers[other],
{
    lemma_drained_joined(state, first, second);
    assert(seq![reply].drop_last() =~= seq![]);
    assert(drained(state, seq![reply].drop_last()) == state);
    assert(seq![reply].last() == reply);
    assert(drained(state, seq![reply]).answers.dom() =~= state.answers.dom());
}

proof fn lemma_drained_joined(
    state: SettledView,
    first: Seq<SettledReply>,
    second: Seq<SettledReply>,
)
    ensures
        drained(state, first + second) == drained(drained(state, first), second),
    decreases second.len(),
{
    let both = first + second;
    if second.len() == 0 {
        assert(both =~= first);
    } else {
        lemma_drained_joined(state, first, second.drop_last());
        assert(both.drop_last() =~= first + second.drop_last());
        assert(both.last() == second.last());
    }
}

/// What is shown as known of a repository of the tree: nothing while the question is out, its
/// pull requests where it answered, and that nobody could say where it was refused or there is
/// nobody to ask.
pub proof fn law_only_an_answer_is_known(
    answers: Map<Seq<char>, AnswerView>,
    roots: Seq<Seq<char>>,
    root: Seq<char>,
    list: SettledPullRequestsView,
    words: Seq<char>,
)
    requires
        roots.contains(root),
    ensures
        !known_answers(answers.remove(root), roots).contains_key(root),
        !known_answers(answers.insert(root, AnswerView::Asking), roots).contains_key(root),
        known_answers(answers.insert(root, AnswerView::Answered(list)), roots).contains_pair(
            root,
            Some(list),
        ),
        known_answers(answers.insert(root, AnswerView::Refused(words)), roots).contains_pair(
            root,
            None,
        ),
        known_answers(answers.insert(root, AnswerView::Unaskable(words)), roots).contains_pair(
            root,
            None,
        ),
        forall|k: Seq<char>| #[trigger]
            known_answers(answers, roots).contains_key(k) ==> roots.contains(k),
{
}

/// A refusal is told before a repository that there is nobody to ask about, the first of its kind
/// before the others, under the name of its repository; and the others are counted.
pub proof fn law_first_refusal_is_told(
    answers: Map<Seq<char>, AnswerView>,
    repos: Seq<RepoNodeView>,
    i: int,
    words: Seq<char>,
)
    requires
        0 <= i < repos.len(),
        answers.contains_key(repos[i].repo_root),
        answers[repos[i].repo_root] == AnswerView::Refused(words) || (answers[repos[i].repo_root]
            == AnswerView::Unaskable(words) && forall|j: int|
            0 <= j < repos.len() && answers.contains_key((#[trigger] repos[j]).repo_root)
                ==> !(answers[repos[j].repo_root] is Refused)),
        forall|j: int|
            0 <= j < i && answers.contains_key((#[trigger] repos[j]).repo_root) ==> (
            answers[repos[j].repo_root] is Refused <==> !(answers[repos[i].repo_root] is Refused))
                || !(answers[repos[j].repo_root] is Refused || answers[repos[j].repo_root] is Unaskable),
    ensures
        in_trouble(answers, repos) >= 1,
        trouble_text(answers, repos) == Some(
            if in_trouble(answers, repos) == 1 {
                repos[i].display_name + ": "@ + words
            } else {
                repos[i].display_name + ": "@ + words + " (+"@ + text::decimal(
                    (in_trouble(answers, repos) - 1) as nat,
                ) + " more)"@
            },
        ),
{
    let refused = answers[repos[i].repo_root] is Refused;
    assert forall|j: int| 0 <= j < i implies why(
        answers,
        (#[trigger] repos[j]).repo_root,
        refused,
    ) is None by {}
    lemma_first_why(answers, repos, i, refused);
    if !refused {
        assert forall|j: int| 0 <= j < repos.len() implies why(
            answers,
            (#[trigger] repos[j]).repo_root,
            true,
        ) is None by {}
        lemma_no_why(answers, repos, true);
    }
    lemma_trouble_counted(answers, repos, i);
}

proof fn lemma_first_why(
    answers: Map<Seq<char>, AnswerView>,
    repos: Seq<RepoNodeView>,
    i: int,
    refused: bool,
)
    requires
        0 <= i < repos.len(),
        why(answers, repos[i].repo_root, refused) is Some,
        forall|j: int|
            0 <= j < i ==> why(answers, (#[trigger] repos[j]).repo_root, refused) is None,
    ensures
        first_why(answers, repos, refused) == Some(
            repos[i].display_name + ": "@ + why(answers, repos[i].repo_root, refused)->Some_0,
        ),
    decreases repos.len(),
{
    let less = repos.drop_last();
    if i < repos.len() - 1 {
        assert(less[i] == repos[i]);
        assert forall|j: int| 0 <= j < i implies why(
            answers,
            (#[trigger] less[j]).repo_root,
            refused,
        ) is None by {
            assert(less[j] == repos[j]);
        }
        lemma_first_why(answers, less, i, refused);
    } else {
        assert forall|j: int| 0 <= j < less.len() implies why(
            answers,
            (#[trigger] less[j]).repo_root,
            refused,
        ) is None by {
            assert(less[j] == repos[j]);
        }
        lemma_no_why(answers, less, refused);
    }
}

proof fn lemma_no_why(
    answers: Map<Seq<char>, AnswerView>,
    repos: Seq<RepoNodeView>,
    refused: bool,
)
    requires
        forall|j: int|
            0 <= j < repos.len() ==> why(answers, (#[trigger] repos[j]).repo_root, refused)
                is None,
    ensures
        first_why(answers, repos, refused) is None,
    decreases repos.len(),
{
    if repos.len() > 0 {
        let less = repos.drop_last();
        assert forall|j: int| 0 <= j < less.len() implies why(
            answers,
            (#[trigger] less[j]).repo_root,
            refused,
        ) is None by {
            assert(less[j] == repos[j]);
        }
        lemma_no_why(answers, less, refused);
        assert(repos.last() == repos[repos.len() - 1]);
    }
}

proof fn lemma_trouble_counted(
    answers: Map<Seq<char>, AnswerView>,
    repos: Seq<RepoNodeView>,
    i: int,
)
    requires
        0 <= i < repos.len(),
        why(answers, repos[i].repo_root, true) is Some || why(answers, repos[i].repo_root, false)
            is Some,
    ensures
        in_trouble(answers, repos) >= 1,
    decreases repos.len(),
{
    if i < repos.len() - 1 {
        assert(repos.drop_last()[i] == repos[i]);
        lemma_trouble_counted(answers, repos.drop_last(), i);
    }
}

/// Trouble is counted by repository: one for each that was refused or has nobody to ask, none for
/// one that answered or may still; and nothing is told where there is none.
pub proof fn law_trouble_is_counted_by_repository(
    answers: Map<Seq<char>, AnswerView>,
    first: Seq<RepoNodeView>,
    second: Seq<RepoNodeView>,
    repo: RepoNodeView,
)
    ensures
        in_trouble(answers, first + second) == in_trouble(answers, first) + in_trouble(
            answers,
            second,
        ),
        in_trouble(answers, seq![repo]) == if answers.contains_key(repo.repo_root) && (
        answers[repo.repo_root] is Refused || answers[repo.repo_root] is Unaskable) {
            1nat
        } else {
            0nat
        },
        in_trouble(answers, first) == 0 ==> trouble_text(answers, first) is None,
{
    lemma_trouble_joined(answers, first, second);
    assert(seq![repo].drop_last() =~= seq![]);
    assert(in_trouble(answers, seq![repo].drop_last()) == 0);
    assert(seq![repo].last() == repo);
    if in_trouble(answers, first) == 0 {
        lemma_untroubled(answers, first);
    }
}

proof fn lemma_untroubled(answers: Map<Seq<char>, AnswerView>, repos: Seq<RepoNodeView>)
    requires
        in_trouble(answers, repos) == 0,
    ensures
        first_why(answers, repos, true) is None,
        first_why(answers, repos, false) is None,
    decreases repos.len(),
{
    if repos.len() > 0 {
        lemma_untroubled(answers, repos.drop_last());
    }
}

proof fn lemma_trouble_joined(
    answers: Map<Seq<char>, AnswerView>,
    first: Seq<RepoNodeView>,
    second: Seq<RepoNodeView>,
)
    ensures
        in_trouble(answers, first + second) == in_trouble(answers, first) + in_trouble(
            answers,
            second,
        ),
    decreases second.len(),
{
    let both = first + second;
    if second.len() == 0 {
        assert(both =~= first);
    } else {
        lemma_trouble_joined(answers, first, second.drop_last());
        assert(both.drop_last() =~= first + second.drop_last());
        assert(both.last() == second.last());
    }
}

/// GitHub is asked about the repository that git named, and only about one that it named.
pub proof fn law_only_a_named_repository_is_asked_about(name: Seq<char>, error: Seq<char>)
    ensures
        after_slug_of(Ok(Some(name))) == Ok::<_, AnswerView>(name),
        after_slug_of(Ok(None)) == Err::<Seq<char>, _>(
            AnswerView::Unaskable("no GitHub remote to ask about"@),
        ),
        after_slug_of(Err(error)) == Err::<Seq<char>, _>(
            AnswerView::Refused(
                text::one_line("git could not name the repository: "@ + error),
            ),
        ),
{
}

/// The roots of the repositories are theirs one for one, and so are the questions to put.
pub proof fn law_questions_are_of_their_repositories(
    repos: Seq<RepoNodeView>,
    i: int,
    questions: Seq<Question>,
    j: int,
)
    requires
        0 <= i < repos.len(),
        0 <= j < questions.len(),
    ensures
        roots_of(repos).len() == repos.len(),
        roots_of(repos)[i] == repos[i].repo_root,
        question_views(questions).len() == questions.len(),
        question_views(questions)[j].0 == questions[j].generation,
        question_views(questions)[j].1 == questions[j].repo_root@,
{
}

/// A question is out while nothing came back for it, and about no repository that was not asked
/// about.
pub proof fn law_question_is_out_until_answered(
    answers: Map<Seq<char>, AnswerView>,
    root: Seq<char>,
    answer: AnswerView,
)
    ensures
        is_asking(answers.insert(root, AnswerView::Asking), root),
        !(answer is Asking) ==> !is_asking(answers.insert(root, answer), root),
        !is_asking(answers.remove(root), root),
{
}

} // verus!
