//! Which checkouts hold uncommitted work: who is asked, who has answered, and who is next.

use vstd::multiset::Multiset;
use vstd::prelude::*;

use crate::model;
use crate::model::{checkout_paths, Tree, WorkingTree};
use crate::ordered::OrderedMap;
use crate::shapes;
use crate::text;
use crate::text::listed;

verus! {

/// How many walks run at once.
pub const MAX_IN_FLIGHT: usize = 8;

/// A walk of one working tree, to be started.
#[derive(Debug, Clone, PartialEq, Eq)]
pub struct Walk {
    pub generation: u64,
    pub checkout_path: String,
}

/// What a walk found: whether the working tree is dirty, or nothing where git would not say.
#[derive(Debug, Clone, PartialEq, Eq)]
pub struct WalkReply {
    pub generation: u64,
    pub checkout_path: String,
    pub dirty: Option<bool>,
}

/// The questions about the working trees of a tree, and the answers so far.
pub struct Dirty {
    generation: u64,
    answers: OrderedMap<Option<WorkingTree>>,
    queued: Vec<String>,
    in_flight: usize,
}

#[verifier::ext_equal]
pub struct DirtyView {
    /// Which round of questions this is. Answers to an earlier round do not count.
    pub generation: u64,
    /// The checkouts that were asked about, and what was said of those that answered.
    pub answers: Map<Seq<char>, Option<WorkingTree>>,
    /// The checkouts whose walk is still to be started, in order.
    pub queued: Seq<Seq<char>>,
    /// How many walks are running.
    pub in_flight: nat,
}

impl View for Dirty {
    type V = DirtyView;

    closed spec fn view(&self) -> DirtyView {
        DirtyView {
            generation: self.generation,
            answers: self.answers@,
            queued: text::texts(self.queued@),
            in_flight: self.in_flight as nat,
        }
    }
}

impl DirtyView {
    /// No more walks run than may, and every checkout that waits was asked about, once.
    pub open spec fn valid(self) -> bool {
        &&& self.in_flight <= MAX_IN_FLIGHT
        &&& self.queued.no_duplicates()
        &&& forall|i: int| 0 <= i < self.queued.len() ==> self.answers.contains_key(
            #[trigger] self.queued[i],
        )
    }
}

// ---------------------------------------------------------------- asking

/// The texts of `queue` that are listed, in their order.
pub open spec fn only_listed(queue: Seq<Seq<char>>, paths: Seq<Seq<char>>) -> Seq<Seq<char>>
    decreases queue.len(),
{
    if queue.len() == 0 {
        seq![]
    } else if paths.contains(queue.last()) {
        only_listed(queue.drop_last(), paths).push(queue.last())
    } else {
        only_listed(queue.drop_last(), paths)
    }
}

/// The answers about checkouts that are listed.
pub open spec fn answers_listed(
    answers: Map<Seq<char>, Option<WorkingTree>>,
    paths: Seq<Seq<char>>,
) -> Map<Seq<char>, Option<WorkingTree>> {
    Map::new(|k: Seq<char>| answers.contains_key(k) && paths.contains(k), |k: Seq<char>| answers[k])
}

/// The state with every checkout among `paths` asked about: those that are new to it wait, in
/// their order.
pub open spec fn enrolled(state: DirtyView, paths: Seq<Seq<char>>) -> DirtyView
    decreases paths.len(),
{
    if paths.len() == 0 {
        state
    } else {
        let so_far = enrolled(state, paths.drop_last());
        if so_far.answers.contains_key(paths.last()) {
            so_far
        } else {
            DirtyView {
                answers: so_far.answers.insert(paths.last(), None),
                queued: so_far.queued.push(paths.last()),
                ..so_far
            }
        }
    }
}

/// How many walks can be started.
pub open spec fn room(state: DirtyView) -> int {
    let free = MAX_IN_FLIGHT - state.in_flight;
    if free < 0 {
        0
    } else if free < state.queued.len() {
        free
    } else {
        state.queued.len() as int
    }
}

/// The state once as many walks are started as can be.
pub open spec fn pumped(state: DirtyView) -> DirtyView {
    DirtyView {
        queued: state.queued.skip(room(state)),
        in_flight: (state.in_flight + room(state)) as nat,
        ..state
    }
}

/// The walks that are started: of the checkouts that waited longest.
pub open spec fn started(state: DirtyView) -> Seq<(u64, Seq<char>)> {
    Seq::new(room(state) as nat, |i: int| (state.generation, state.queued[i]))
}

/// What the walks to start are.
pub open spec fn walk_views(walks: Seq<Walk>) -> Seq<(u64, Seq<char>)> {
    Seq::new(walks.len(), |i: int| (walks[i].generation, walks[i].checkout_path@))
}

/// The state once the checkouts of a tree are asked about, before any walk is started. What is no
/// longer in the tree is forgotten.
pub open spec fn asked(state: DirtyView, paths: Seq<Seq<char>>) -> DirtyView {
    enrolled(
        DirtyView {
            answers: answers_listed(state.answers, paths),
            queued: only_listed(state.queued, paths),
            ..state
        },
        paths,
    )
}

/// The state of a new round, with nothing asked.
pub open spec fn renewed(state: DirtyView) -> DirtyView {
    DirtyView {
        generation: state.generation.wrapping_add(1),
        answers: Map::empty(),
        queued: seq![],
        in_flight: state.in_flight,
    }
}

// ---------------------------------------------------------------- answers

/// What a walk found of a working tree.
pub open spec fn answer_of(dirty: Option<bool>) -> WorkingTree {
    match dirty {
        Some(found) => if found {
            WorkingTree::Dirty
        } else {
            WorkingTree::Clean
        },
        None => WorkingTree::Unreadable,
    }
}

/// The state with one reply read: its walk has ended, and its answer counts where it is of this
/// round and about a checkout that was asked about.
pub open spec fn replied(state: DirtyView, reply: WalkReply) -> DirtyView {
    let in_flight = if state.in_flight > 0 {
        (state.in_flight - 1) as nat
    } else {
        0
    };
    let path = reply.checkout_path@;
    if reply.generation == state.generation && state.answers.contains_key(path) {
        DirtyView {
            answers: state.answers.insert(path, Some(answer_of(reply.dirty))),
            in_flight,
            ..state
        }
    } else {
        DirtyView { in_flight, ..state }
    }
}

/// The state with the replies read.
pub open spec fn drained(state: DirtyView, replies: Seq<WalkReply>) -> DirtyView
    decreases replies.len(),
{
    if replies.len() == 0 {
        state
    } else {
        replied(drained(state, replies.drop_last()), replies.last())
    }
}

/// The checkouts among `keys` that have an answer, with it.
pub open spec fn answered(
    keys: Seq<Seq<char>>,
    answers: Map<Seq<char>, Option<WorkingTree>>,
) -> Seq<(Seq<char>, WorkingTree)>
    decreases keys.len(),
{
    if keys.len() == 0 {
        seq![]
    } else {
        let so_far = answered(keys.drop_last(), answers);
        match answers[keys.last()] {
            Some(answer) => so_far.push((keys.last(), answer)),
            None => so_far,
        }
    }
}

/// Whether a list is that of the checkouts that answered, in ascending order of their paths.
pub open spec fn are_answers(
    list: Seq<(String, WorkingTree)>,
    answers: Map<Seq<char>, Option<WorkingTree>>,
) -> bool {
    exists|keys: Seq<Seq<char>>|
        text::ascending(keys) && (forall|k: Seq<char>| #[trigger]
            keys.contains(k) <==> answers.contains_key(k)) && answer_views(list)
            == #[trigger] answered(keys, answers)
}

/// What pairs of a path and an answer stand for.
pub open spec fn answer_views(v: Seq<(String, WorkingTree)>) -> Seq<(Seq<char>, WorkingTree)> {
    Seq::new(v.len(), |i: int| (v[i].0@, v[i].1))
}

/// Whether an answer is still to come.
pub open spec fn is_awaited(state: DirtyView) -> bool {
    state.in_flight > 0 || state.queued.len() > 0
}

/// The state before any question.
pub open spec fn fresh() -> DirtyView {
    DirtyView { generation: 0, answers: Map::empty(), queued: seq![], in_flight: 0 }
}

// ---------------------------------------------------------------- the questions

impl Dirty {
    /// No question asked yet.
    pub fn new() -> (dirty: Dirty)
        ensures
            dirty@ == fresh(),
            dirty@.valid(),
    {
        let dirty = Dirty {
            generation: 0,
            answers: OrderedMap::new(),
            queued: Vec::new(),
            in_flight: 0,
        };
        assert(dirty@.queued =~= seq![]);
        dirty
    }

    /// Asks about every checkout of the tree that was not asked about yet, and forgets those that
    /// are no longer in it. Gives the walks to start.
    pub fn ask(&mut self, tree: &Tree) -> (walks: Vec<Walk>)
        ensures
            final(self)@ == pumped(
                asked(old(self)@, model::paths_of(shapes::views(tree.repos@))),
            ),
            walk_views(walks@) == started(
                asked(old(self)@, model::paths_of(shapes::views(tree.repos@))),
            ),
            old(self)@.valid() ==> final(self)@.valid(),
    {
        let ghost before = self@;
        let paths = checkout_paths(tree);
        let ghost names = text::texts(paths@);
        self.forget_unlisted(&paths);
        let ghost kept = self@;
        let mut i: usize = 0;
        assert(names.take(0) =~= seq![]);
        while i < paths.len()
            invariant
                i <= paths@.len(),
                names == text::texts(paths@),
                self@ == enrolled(kept, names.take(i as int)),
            decreases paths@.len() - i,
        {
            assert(names.take(i + 1).drop_last() =~= names.take(i as int));
            assert(names.take(i + 1).last() == paths@[i as int]@);
            if !self.answers.has(paths[i].as_str()) {
                let ghost queue = text::texts(self.queued@);
                self.answers.insert(paths[i].clone(), None);
                self.queued.push(paths[i].clone());
                assert(text::texts(self.queued@) =~= queue.push(paths@[i as int]@));
            }
            assert(self@ =~= enrolled(kept, names.take(i + 1)));
            i = i + 1;
        }
        assert(names.take(i as int) =~= names);
        proof {
            if before.valid() {
                law_asking_keeps_valid(before, names);
            }
        }
        self.pump()
    }

    /// Drops what is about checkouts that are not listed.
    fn forget_unlisted(&mut self, paths: &Vec<String>)
        ensures
            final(self)@ == (DirtyView {
                answers: answers_listed(old(self)@.answers, text::texts(paths@)),
                queued: only_listed(old(self)@.queued, text::texts(paths@)),
                ..old(self)@
            }),
    {
        let ghost before = self@;
        let ghost names = text::texts(paths@);
        let ghost keys = self.answers.keys();
        let mut marks: Vec<bool> = Vec::new();
        let n = self.answers.len();
        let mut i: usize = 0;
        while i < n
            invariant
                i <= n,
                n == keys.len(),
                keys == self.answers.keys(),
                self@ == before,
                names == text::texts(paths@),
                marks@.len() == i,
                forall|j: int| 0 <= j < i ==> #[trigger] marks@[j] == names.contains(keys[j]),
            decreases n - i,
        {
            marks.push(listed(paths, self.answers.key_at(i)));
            i = i + 1;
        }
        self.answers.keep(&marks);
        proof {
            assert forall|k: Seq<char>|
                #[trigger] self.answers@.contains_key(k) <==> before.answers.contains_key(k)
                    && names.contains(k) by {
                if self.answers@.contains_key(k) {
                    let j = choose|j: int|
                        0 <= j < marks@.len() && marks@[j] && #[trigger] keys[j] == k;
                    assert(keys.contains(k));
                }
                if before.answers.contains_key(k) && names.contains(k) {
                    assert(keys.contains(k));
                    let j = choose|j: int| 0 <= j < keys.len() && keys[j] == k;
                    assert(marks@[j]);
                }
            }
            assert(self.answers@ =~= answers_listed(before.answers, names));
        }
        let ghost queue = text::texts(self.queued@);
        let mut kept: Vec<String> = Vec::new();
        let mut k: usize = 0;
        while k < self.queued.len()
            invariant
                k <= self.queued@.len(),
                queue == text::texts(self.queued@),
                names == text::texts(paths@),
                text::texts(kept@) == only_listed(queue.take(k as int), names),
            decreases self.queued@.len() - k,
        {
            assert(queue.take(k + 1).drop_last() =~= queue.take(k as int));
            assert(queue.take(k + 1).last() == self.queued@[k as int]@);
            let ghost so_far = text::texts(kept@);
            if listed(paths, self.queued[k].as_str()) {
                kept.push(self.queued[k].clone());
                assert(text::texts(kept@) =~= so_far.push(queue[k as int]));
            }
            k = k + 1;
        }
        assert(queue.take(k as int) =~= queue);
        self.queued = kept;
    }

    /// Asks about every checkout of the tree again, in a round of its own.
    pub fn reask(&mut self, tree: &Tree) -> (walks: Vec<Walk>)
        ensures
            final(self)@ == pumped(
                asked(renewed(old(self)@), model::paths_of(shapes::views(tree.repos@))),
            ),
            walk_views(walks@) == started(
                asked(renewed(old(self)@), model::paths_of(shapes::views(tree.repos@))),
            ),
            old(self)@.valid() ==> final(self)@.valid(),
    {
        let ghost before = self@;
        self.generation = self.generation.wrapping_add(1);
        self.answers = OrderedMap::new();
        self.queued = Vec::new();
        assert(self@ =~= renewed(before));
        self.ask(tree)
    }

    /// Reads what came back, and gives the walks that can be started in the place of those that
    /// ended.
    pub fn drain(&mut self, replies: &Vec<WalkReply>) -> (walks: Vec<Walk>)
        ensures
            final(self)@ == pumped(drained(old(self)@, replies@)),
            walk_views(walks@) == started(drained(old(self)@, replies@)),
            old(self)@.valid() ==> final(self)@.valid(),
    {
        let ghost before = self@;
        let mut i: usize = 0;
        assert(replies@.take(0) =~= seq![]);
        while i < replies.len()
            invariant
                i <= replies@.len(),
                self@ == drained(before, replies@.take(i as int)),
            decreases replies@.len() - i,
        {
            assert(replies@.take(i + 1).drop_last() =~= replies@.take(i as int));
            let reply = &replies[i];
            assert(replies@.take(i + 1).last() == *reply);
            if self.in_flight > 0 {
                self.in_flight = self.in_flight - 1;
            }
            if reply.generation == self.generation && self.answers.has(
                reply.checkout_path.as_str(),
            ) {
                let answer = match reply.dirty {
                    Some(found) => if found {
                        WorkingTree::Dirty
                    } else {
                        WorkingTree::Clean
                    },
                    None => WorkingTree::Unreadable,
                };
                self.answers.insert(reply.checkout_path.clone(), Some(answer));
            }
            assert(self@ =~= drained(before, replies@.take(i + 1)));
            i = i + 1;
        }
        assert(replies@.take(i as int) =~= replies@);
        proof {
            if before.valid() {
                law_draining_keeps_valid(before, replies@);
            }
        }
        self.pump()
    }

    /// The checkouts that answered, in ascending order of their paths, with their answers.
    pub fn answers(&self) -> (answers: Vec<(String, WorkingTree)>)
        ensures
            are_answers(answers@, self@.answers),
    {
        let ghost keys = self.answers.keys();
        let n = self.answers.len();
        let mut answers: Vec<(String, WorkingTree)> = Vec::new();
        let mut i: usize = 0;
        while i < n
            invariant
                i <= n,
                n == keys.len(),
                keys == self.answers.keys(),
                answer_views(answers@) == answered(keys.take(i as int), self.answers@),
            decreases n - i,
        {
            assert(keys.take(i + 1).drop_last() =~= keys.take(i as int));
            assert(keys.take(i + 1).last() == keys[i as int]);
            let ghost so_far = answer_views(answers@);
            match self.answers.value_at(i) {
                Some(answer) => {
                    answers.push((self.answers.key_at(i).to_owned(), *answer));
                    assert(answer_views(answers@) =~= so_far.push((keys[i as int], *answer)));
                },
                None => {},
            }
            i = i + 1;
        }
        assert(keys.take(i as int) =~= keys);
        assert(answer_views(answers@) == answered(keys, self@.answers));
        answers
    }

    /// Whether an answer is still to come.
    pub fn is_waiting(&self) -> (waiting: bool)
        ensures
            waiting == is_awaited(self@),
    {
        self.in_flight > 0 || self.queued.len() > 0
    }

    /// Starts as many walks as can be.
    fn pump(&mut self) -> (walks: Vec<Walk>)
        ensures
            final(self)@ == pumped(old(self)@),
            walk_views(walks@) == started(old(self)@),
            old(self)@.valid() ==> final(self)@.valid(),
    {
        let ghost before = self@;
        let mut walks: Vec<Walk> = Vec::new();
        assert(before.queued.skip(0) =~= before.queued);
        while self.in_flight < MAX_IN_FLIGHT && self.queued.len() > 0
            invariant
                walks@.len() <= room(before),
                self@.generation == before.generation,
                self@.answers == before.answers,
                self@.queued == before.queued.skip(walks@.len() as int),
                self@.in_flight == before.in_flight + walks@.len(),
                walk_views(walks@) == started(before).take(walks@.len() as int),
            decreases self.queued@.len(),
        {
            let ghost done = walks@.len() as int;
            let ghost queue = text::texts(self.queued@);
            assert(queue == before.queued.skip(done));
            let path = self.queued.remove(0);
            assert(path@ == queue[0]);
            assert(text::texts(self.queued@) =~= queue.skip(1));
            assert(queue.skip(1) =~= before.queued.skip(done + 1));
            self.in_flight = self.in_flight + 1;
            let ghost so_far = walk_views(walks@);
            walks.push(Walk { generation: self.generation, checkout_path: path });
            assert(walk_views(walks@) =~= so_far.push((before.generation, before.queued[done])));
            assert(started(before).take(done + 1) =~= so_far.push(
                (before.generation, before.queued[done]),
            ));
        }
        proof {
            assert(walks@.len() == room(before));
            assert(started(before).take(walks@.len() as int) =~= started(before));
            assert(self@ =~= pumped(before));
            if before.valid() {
                assert forall|i: int| 0 <= i < self@.queued.len() implies self@.answers.contains_key(
                    #[trigger] self@.queued[i],
                ) by {
                    assert(self@.queued[i] == before.queued[i + room(before)]);
                }
            }
        }
        walks
    }
}

// ---------------------------------------------------------------- laws

proof fn lemma_only_listed(queue: Seq<Seq<char>>, paths: Seq<Seq<char>>)
    requires
        queue.no_duplicates(),
    ensures
        only_listed(queue, paths).no_duplicates(),
        forall|i: int|
            0 <= i < only_listed(queue, paths).len() ==> queue.contains(
                #[trigger] only_listed(queue, paths)[i],
            ) && paths.contains(only_listed(queue, paths)[i]),
    decreases queue.len(),
{
    if queue.len() > 0 {
        let front = queue.drop_last();
        assert(front.no_duplicates());
        lemma_only_listed(front, paths);
        let so_far = only_listed(front, paths);
        let all = only_listed(queue, paths);
        assert forall|i: int| 0 <= i < all.len() implies queue.contains(#[trigger] all[i])
            && paths.contains(all[i]) by {
            if i < so_far.len() {
                assert(all[i] == so_far[i]);
                let k = choose|k: int| 0 <= k < front.len() && front[k] == so_far[i];
                assert(queue[k] == all[i]);
            } else {
                assert(queue[queue.len() - 1] == all[i]);
            }
        }
        assert forall|i: int, j: int| 0 <= i < all.len() && 0 <= j < all.len() && i != j implies all[i]
            != all[j] by {
            if i < so_far.len() && j < so_far.len() {
                assert(so_far[i] != so_far[j]);
            } else {
                let m = if i < so_far.len() { i } else { j };
                assert(front.contains(so_far[m]));
                let k = choose|k: int| 0 <= k < front.len() && front[k] == so_far[m];
                assert(queue[k] != queue[queue.len() - 1]);
            }
        }
    }
}

proof fn lemma_enrolled_valid(state: DirtyView, paths: Seq<Seq<char>>)
    requires
        state.valid(),
    ensures
        enrolled(state, paths).valid(),
        enrolled(state, paths).generation == state.generation,
        forall|k: Seq<char>| #[trigger]
            enrolled(state, paths).answers.contains_key(k) <==> state.answers.contains_key(k)
                || paths.contains(k),
        forall|k: Seq<char>| #[trigger]
            state.answers.contains_key(k) ==> enrolled(state, paths).answers[k] == state.answers[k],
    decreases paths.len(),
{
    if paths.len() > 0 {
        let front = paths.drop_last();
        let last = paths.last();
        lemma_enrolled_valid(state, front);
        let so_far = enrolled(state, front);
        let all = enrolled(state, paths);
        assert forall|k: Seq<char>|
            #[trigger] all.answers.contains_key(k) <==> state.answers.contains_key(k)
                || paths.contains(k) by {
            if front.contains(k) {
                let i = choose|i: int| 0 <= i < front.len() && front[i] == k;
                assert(paths[i] == k);
            }
            if k == last {
                assert(paths[paths.len() - 1] == k);
            }
            if paths.contains(k) && k != last {
                let i = choose|i: int| 0 <= i < paths.len() && paths[i] == k;
                assert(front[i] == k);
            }
        }
        if !so_far.answers.contains_key(last) {
            assert forall|i: int| 0 <= i < all.queued.len() implies all.answers.contains_key(
                #[trigger] all.queued[i],
            ) by {
                if i < so_far.queued.len() {
                    assert(so_far.answers.contains_key(so_far.queued[i]));
                }
            }
            assert forall|i: int, j: int|
                0 <= i < all.queued.len() && 0 <= j < all.queued.len() && i != j implies all.queued[i]
                != all.queued[j] by {
                if i < so_far.queued.len() && j < so_far.queued.len() {
                    assert(so_far.queued[i] != so_far.queued[j]);
                } else {
                    let m = if i < so_far.queued.len() { i } else { j };
                    assert(so_far.answers.contains_key(so_far.queued[m]));
                }
            }
        }
    }
}

/// Asking keeps the state valid: no checkout waits twice, and none waits that was not asked about.
pub proof fn law_asking_keeps_valid(state: DirtyView, paths: Seq<Seq<char>>)
    requires
        state.valid(),
    ensures
        asked(state, paths).valid(),
{
    lemma_only_listed(state.queued, paths);
    let kept = DirtyView {
        answers: answers_listed(state.answers, paths),
        queued: only_listed(state.queued, paths),
        ..state
    };
    assert forall|i: int| 0 <= i < kept.queued.len() implies kept.answers.contains_key(
        #[trigger] kept.queued[i],
    ) by {
        assert(state.queued.contains(kept.queued[i]));
        let k = choose|k: int| 0 <= k < state.queued.len() && state.queued[k] == kept.queued[i];
        assert(state.answers.contains_key(state.queued[k]));
    }
    lemma_enrolled_valid(kept, paths);
}

/// After a tree is asked about, exactly its checkouts are, and what was known of one stays known.
pub proof fn law_asking_follows_the_tree(state: DirtyView, paths: Seq<Seq<char>>, path: Seq<char>)
    requires
        state.valid(),
    ensures
        asked(state, paths).answers.contains_key(path) <==> paths.contains(path),
        paths.contains(path) && state.answers.contains_key(path) ==> asked(
            state,
            paths,
        ).answers[path] == state.answers[path],
{
    law_asking_keeps_valid(state, paths);
    let kept = DirtyView {
        answers: answers_listed(state.answers, paths),
        queued: only_listed(state.queued, paths),
        ..state
    };
    lemma_only_listed(state.queued, paths);
    assert forall|i: int| 0 <= i < kept.queued.len() implies kept.answers.contains_key(
        #[trigger] kept.queued[i],
    ) by {
        assert(state.queued.contains(kept.queued[i]));
        let k = choose|k: int| 0 <= k < state.queued.len() && state.queued[k] == kept.queued[i];
        assert(state.answers.contains_key(state.queued[k]));
    }
    lemma_enrolled_valid(kept, paths);
    assert(paths.contains(path) && state.answers.contains_key(path) ==> kept.answers.contains_key(
        path,
    ));
}

/// Reading replies keeps the state valid.
pub proof fn law_draining_keeps_valid(state: DirtyView, replies: Seq<WalkReply>)
    requires
        state.valid(),
    ensures
        drained(state, replies).valid(),
        drained(state, replies).generation == state.generation,
    decreases replies.len(),
{
    if replies.len() > 0 {
        law_draining_keeps_valid(state, replies.drop_last());
    }
}

/// A reply to an earlier round changes no answer.
pub proof fn law_late_reply_changes_no_answer(state: DirtyView, reply: WalkReply)
    requires
        reply.generation != state.generation,
    ensures
        replied(state, reply).answers == state.answers,
        replied(state, reply).queued == state.queued,
{
}

/// Asking again leaves no answer of the round before, and starts with every checkout of the tree
/// waiting for one.
pub proof fn law_asking_again_forgets(state: DirtyView, paths: Seq<Seq<char>>, path: Seq<char>)
    requires
        state.valid(),
    ensures
        asked(renewed(state), paths).answers.contains_key(path) <==> paths.contains(path),
        paths.contains(path) ==> asked(renewed(state), paths).answers[path] is None,
        asked(renewed(state), paths).generation != state.generation,
{
    law_asking_follows_the_tree(renewed(state), paths, path);
    law_asking_keeps_valid(renewed(state), paths);
    lemma_only_listed(renewed(state).queued, paths);
    let new = renewed(state);
    let kept = DirtyView {
        answers: answers_listed(new.answers, paths),
        queued: only_listed(new.queued, paths),
        ..new
    };
    lemma_enrolled_valid(kept, paths);
    lemma_enrolled_unanswered(kept, paths, path);
}

/// Where nothing has answered, nothing has once more is asked.
proof fn lemma_enrolled_unanswered(state: DirtyView, paths: Seq<Seq<char>>, path: Seq<char>)
    requires
        state.answers.contains_key(path) ==> state.answers[path] is None,
    ensures
        enrolled(state, paths).answers.contains_key(path) ==> enrolled(
            state,
            paths,
        ).answers[path] is None,
    decreases paths.len(),
{
    if paths.len() > 0 {
        lemma_enrolled_unanswered(state, paths.drop_last(), path);
    }
}

/// However many checkouts wait, no more walks are started than may run at once, and none twice;
/// a checkout is left waiting only while as many run as may.
pub proof fn law_no_more_walks_than_may(state: DirtyView)
    requires
        state.valid(),
    ensures
        pumped(state).valid(),
        state.in_flight + started(state).len() <= MAX_IN_FLIGHT,
        started(state).no_duplicates(),
        pumped(state).queued.len() > 0 ==> pumped(state).in_flight == MAX_IN_FLIGHT,
{
    let rest = state.queued.skip(room(state));
    assert forall|i: int| 0 <= i < rest.len() implies state.answers.contains_key(
        #[trigger] rest[i],
    ) by {
        assert(rest[i] == state.queued[i + room(state)]);
    }
    assert forall|i: int, j: int| 0 <= i < rest.len() && 0 <= j < rest.len() && i != j implies rest[i]
        != rest[j] by {
        assert(rest[i] == state.queued[i + room(state)]);
        assert(rest[j] == state.queued[j + room(state)]);
    }
}

// ---------------------------------------------------------------- walks that are out

/// Something that was done with the questions.
pub enum Event {
    /// The tree with these checkouts was asked about.
    Ask(Seq<Seq<char>>),
    /// It was asked about again.
    Reask(Seq<Seq<char>>),
    /// These replies were read.
    Drain(Seq<WalkReply>),
}

/// The questions, together with the walks that were handed out and did not reply.
pub struct Watched {
    pub state: DirtyView,
    pub out: Multiset<(u64, Seq<char>)>,
}

/// The walks that are out once more were handed out.
pub open spec fn with_walks(
    out: Multiset<(u64, Seq<char>)>,
    walks: Seq<(u64, Seq<char>)>,
) -> Multiset<(u64, Seq<char>)>
    decreases walks.len(),
{
    if walks.len() == 0 {
        out
    } else {
        with_walks(out, walks.drop_last()).insert(walks.last())
    }
}

/// The walk that a reply is to.
pub open spec fn walk_of(reply: WalkReply) -> (u64, Seq<char>) {
    (reply.generation, reply.checkout_path@)
}

/// The walks that are out once some replied.
pub open spec fn without_replied(
    out: Multiset<(u64, Seq<char>)>,
    replies: Seq<WalkReply>,
) -> Multiset<(u64, Seq<char>)>
    decreases replies.len(),
{
    if replies.len() == 0 {
        out
    } else {
        without_replied(out, replies.drop_last()).remove(walk_of(replies.last()))
    }
}

/// Whether each of the replies is to a walk that is out, and no two are to one.
pub open spec fn are_replies(out: Multiset<(u64, Seq<char>)>, replies: Seq<WalkReply>) -> bool
    decreases replies.len(),
{
    replies.len() == 0 || (are_replies(out, replies.drop_last()) && without_replied(
        out,
        replies.drop_last(),
    ).contains(walk_of(replies.last())))
}

/// What an event makes of the questions, before walks are started.
pub open spec fn upon(state: DirtyView, event: Event) -> DirtyView {
    match event {
        Event::Ask(paths) => asked(state, paths),
        Event::Reask(paths) => asked(renewed(state), paths),
        Event::Drain(replies) => drained(state, replies),
    }
}

/// The questions and the walks that are out, after what was done since there were none.
pub open spec fn after(events: Seq<Event>) -> Watched
    decreases events.len(),
{
    if events.len() == 0 {
        Watched { state: fresh(), out: Multiset::empty() }
    } else {
        let before = after(events.drop_last());
        let state = upon(before.state, events.last());
        let out = match events.last() {
            Event::Drain(replies) => without_replied(before.out, replies),
            _ => before.out,
        };
        Watched { state: pumped(state), out: with_walks(out, started(state)) }
    }
}

/// Whether every reply that was read is to a walk that was out by then.
pub open spec fn can_be(events: Seq<Event>) -> bool
    decreases events.len(),
{
    events.len() == 0 || (can_be(events.drop_last()) && match events.last() {
        Event::Drain(replies) => are_replies(after(events.drop_last()).out, replies),
        _ => true,
    })
}

/// The checkouts of the tree that was asked about last; none before the first.
pub open spec fn last_asked(events: Seq<Event>) -> Seq<Seq<char>>
    decreases events.len(),
{
    if events.len() == 0 {
        seq![]
    } else {
        match events.last() {
            Event::Ask(paths) => paths,
            Event::Reask(paths) => paths,
            Event::Drain(_) => last_asked(events.drop_last()),
        }
    }
}

/// Whether a list of answers has one about a checkout.
pub open spec fn tells_of(list: Seq<(String, WorkingTree)>, path: Seq<char>) -> bool {
    exists|i: int| 0 <= i < list.len() && (#[trigger] list[i]).0@ == path
}

/// Whether a checkout that did not answer waits for its walk, or is being walked in this round.
pub open spec fn is_on_its_way(watched: Watched, path: Seq<char>) -> bool {
    let state = watched.state;
    state.queued.contains(path) || watched.out.contains((state.generation, path))
}

/// Whether as many walks are out as count as running, and every checkout that did not answer is on
/// its way.
pub open spec fn accounted(watched: Watched) -> bool {
    let state = watched.state;
    &&& state.valid()
    &&& state.in_flight == watched.out.len()
    &&& forall|path: Seq<char>| #[trigger]
        state.answers.contains_key(path) && state.answers[path] is None ==> is_on_its_way(
            watched,
            path,
        )
}

proof fn lemma_with_walks(out: Multiset<(u64, Seq<char>)>, walks: Seq<(u64, Seq<char>)>)
    ensures
        with_walks(out, walks).len() == out.len() + walks.len(),
        forall|walk: (u64, Seq<char>)|
            out.contains(walk) ==> #[trigger] with_walks(out, walks).contains(walk),
        forall|i: int|
            0 <= i < walks.len() ==> with_walks(out, walks).contains(#[trigger] walks[i]),
    decreases walks.len(),
{
    broadcast use vstd::multiset::group_multiset_axioms;

    if walks.len() > 0 {
        lemma_with_walks(out, walks.drop_last());
        assert forall|walk: (u64, Seq<char>)|
            out.contains(walk) implies #[trigger] with_walks(out, walks).contains(walk) by {
            assert(with_walks(out, walks.drop_last()).contains(walk));
        }
        assert forall|i: int| 0 <= i < walks.len() implies with_walks(out, walks).contains(
            #[trigger] walks[i],
        ) by {
            if i < walks.len() - 1 {
                assert(walks.drop_last()[i] == walks[i]);
            }
        }
    }
}

proof fn lemma_pumped_accounted(watched: Watched)
    requires
        accounted(watched),
    ensures
        accounted(
            Watched {
                state: pumped(watched.state),
                out: with_walks(watched.out, started(watched.state)),
            },
        ),
{
    let state = watched.state;
    let walks = started(state);
    let later = Watched { state: pumped(state), out: with_walks(watched.out, walks) };
    law_no_more_walks_than_may(state);
    lemma_with_walks(watched.out, walks);
    assert forall|path: Seq<char>| #[trigger]
        later.state.answers.contains_key(path) && later.state.answers[path] is None implies is_on_its_way(
        later, path) by {
        assert(state.answers.contains_key(path));
        assert(is_on_its_way(watched, path));
        if state.queued.contains(path) {
            let i = choose|i: int| 0 <= i < state.queued.len() && state.queued[i] == path;
            if i < room(state) {
                assert(walks[i] == (state.generation, path));
            } else {
                assert(later.state.queued[i - room(state)] == path);
            }
        }
    }
}

proof fn lemma_only_listed_keeps(queue: Seq<Seq<char>>, paths: Seq<Seq<char>>, path: Seq<char>)
    requires
        queue.contains(path),
        paths.contains(path),
    ensures
        only_listed(queue, paths).contains(path),
    decreases queue.len(),
{
    let all = only_listed(queue, paths);
    let i = choose|i: int| 0 <= i < queue.len() && queue[i] == path;
    if i == queue.len() - 1 {
        assert(all.last() == path);
    } else {
        assert(queue.drop_last()[i] == path);
        lemma_only_listed_keeps(queue.drop_last(), paths, path);
        let front = only_listed(queue.drop_last(), paths);
        let k = choose|k: int| 0 <= k < front.len() && front[k] == path;
        assert(all[k] == path);
    }
}

proof fn lemma_enrolled_queues(state: DirtyView, paths: Seq<Seq<char>>, path: Seq<char>)
    ensures
        enrolled(state, paths).in_flight == state.in_flight,
        state.queued.contains(path) ==> enrolled(state, paths).queued.contains(path),
        !state.answers.contains_key(path) && enrolled(state, paths).answers.contains_key(path)
            ==> enrolled(state, paths).queued.contains(path),
    decreases paths.len(),
{
    if paths.len() > 0 {
        lemma_enrolled_queues(state, paths.drop_last(), path);
        let so_far = enrolled(state, paths.drop_last());
        let all = enrolled(state, paths);
        if so_far.queued.contains(path) {
            let k = choose|k: int| 0 <= k < so_far.queued.len() && so_far.queued[k] == path;
            assert(all.queued[k] == path);
        }
        if !so_far.answers.contains_key(path) && all.answers.contains_key(path) {
            assert(all.queued.last() == path);
        }
    }
}

proof fn lemma_asked_accounted(watched: Watched, paths: Seq<Seq<char>>)
    requires
        accounted(watched),
    ensures
        accounted(Watched { state: asked(watched.state, paths), out: watched.out }),
        forall|path: Seq<char>| #[trigger]
            asked(watched.state, paths).answers.contains_key(path) <==> paths.contains(path),
{
    let state = watched.state;
    let kept = DirtyView {
        answers: answers_listed(state.answers, paths),
        queued: only_listed(state.queued, paths),
        ..state
    };
    let later = Watched { state: asked(state, paths), out: watched.out };
    law_asking_keeps_valid(state, paths);
    lemma_only_listed(state.queued, paths);
    assert(kept.valid()) by {
        assert forall|i: int| 0 <= i < kept.queued.len() implies kept.answers.contains_key(
            #[trigger] kept.queued[i],
        ) by {
            assert(state.queued.contains(kept.queued[i]));
        }
    }
    lemma_enrolled_valid(kept, paths);
    lemma_enrolled_queues(kept, paths, seq![]);
    assert forall|path: Seq<char>| #[trigger]
        later.state.answers.contains_key(path) <==> paths.contains(path) by {
        law_asking_follows_the_tree(state, paths, path);
    }
    assert forall|path: Seq<char>| #[trigger]
        later.state.answers.contains_key(path) && later.state.answers[path] is None implies is_on_its_way(
        later, path) by {
        lemma_enrolled_queues(kept, paths, path);
        if kept.answers.contains_key(path) {
            assert(state.answers.contains_key(path));
            assert(is_on_its_way(watched, path));
            if state.queued.contains(path) {
                lemma_only_listed_keeps(state.queued, paths, path);
            }
        }
    }
}

proof fn lemma_drained_accounted(watched: Watched, replies: Seq<WalkReply>)
    requires
        accounted(watched),
        are_replies(watched.out, replies),
    ensures
        accounted(
            Watched {
                state: drained(watched.state, replies),
                out: without_replied(watched.out, replies),
            },
        ),
        drained(watched.state, replies).answers.dom() == watched.state.answers.dom(),
    decreases replies.len(),
{
    broadcast use vstd::multiset::group_multiset_axioms;

    if replies.len() > 0 {
        let front = replies.drop_last();
        let reply = replies.last();
        lemma_drained_accounted(watched, front);
        law_draining_keeps_valid(watched.state, replies);
        let before = Watched {
            state: drained(watched.state, front),
            out: without_replied(watched.out, front),
        };
        let later = Watched {
            state: drained(watched.state, replies),
            out: without_replied(watched.out, replies),
        };
        assert(before.out.contains(walk_of(reply)));
        assert(later.state.answers.dom() =~= before.state.answers.dom());
        assert forall|path: Seq<char>| #[trigger]
            later.state.answers.contains_key(path) && later.state.answers[path] is None implies is_on_its_way(
            later, path) by {
            assert(before.state.answers.contains_key(path));
            assert(is_on_its_way(before, path));
            assert((before.state.generation, path) != walk_of(reply));
        }
    }
}

proof fn lemma_after_accounted(events: Seq<Event>)
    requires
        can_be(events),
    ensures
        accounted(after(events)),
        forall|path: Seq<char>| #[trigger]
            after(events).state.answers.contains_key(path) <==> last_asked(events).contains(path),
    decreases events.len(),
{
    broadcast use vstd::multiset::group_multiset_axioms;

    if events.len() > 0 {
        let front = events.drop_last();
        let before = after(front);
        lemma_after_accounted(front);
        match events.last() {
            Event::Ask(paths) => {
                lemma_asked_accounted(before, paths);
                lemma_pumped_accounted(
                    Watched { state: asked(before.state, paths), out: before.out },
                );
            },
            Event::Reask(paths) => {
                let renewed = Watched { state: renewed(before.state), out: before.out };
                assert(accounted(renewed));
                lemma_asked_accounted(renewed, paths);
                lemma_pumped_accounted(
                    Watched { state: asked(renewed.state, paths), out: before.out },
                );
            },
            Event::Drain(replies) => {
                lemma_drained_accounted(before, replies);
                let read = Watched {
                    state: drained(before.state, replies),
                    out: without_replied(before.out, replies),
                };
                lemma_pumped_accounted(read);
                assert forall|path: Seq<char>| #[trigger]
                    after(events).state.answers.contains_key(path) <==> last_asked(
                        events,
                    ).contains(path) by {
                    assert(read.state.answers.dom().contains(path)
                        == before.state.answers.dom().contains(path));
                    assert(before.state.answers.contains_key(path) <==> last_asked(front).contains(
                        path,
                    ));
                }
            },
        }
    }
}

proof fn lemma_answered_tells(
    keys: Seq<Seq<char>>,
    answers: Map<Seq<char>, Option<WorkingTree>>,
    path: Seq<char>,
)
    ensures
        (exists|i: int|
            0 <= i < answered(keys, answers).len() && (#[trigger] answered(keys, answers)[i]).0
                == path) <==> (keys.contains(path) && answers[path] is Some),
    decreases keys.len(),
{
    if keys.len() > 0 {
        let front = keys.drop_last();
        let last = keys.last();
        lemma_answered_tells(front, answers, path);
        let so_far = answered(front, answers);
        let all = answered(keys, answers);
        if keys.contains(path) && path != last {
            let k = choose|k: int| 0 <= k < keys.len() && keys[k] == path;
            assert(front[k] == path);
        }
        if front.contains(path) {
            let k = choose|k: int| 0 <= k < front.len() && front[k] == path;
            assert(keys[k] == path);
        }
        assert(keys[keys.len() - 1] == last);
        if exists|i: int| 0 <= i < so_far.len() && (#[trigger] so_far[i]).0 == path {
            let i = choose|i: int| 0 <= i < so_far.len() && (#[trigger] so_far[i]).0 == path;
            assert(all[i].0 == path);
        }
        if path == last && answers[last] is Some {
            assert(all[all.len() - 1].0 == path);
        }
        if exists|i: int| 0 <= i < all.len() && (#[trigger] all[i]).0 == path {
            let i = choose|i: int| 0 <= i < all.len() && (#[trigger] all[i]).0 == path;
            if i < so_far.len() {
                assert(so_far[i].0 == path);
            }
        }
    }
}

proof fn lemma_answers_tell(
    list: Seq<(String, WorkingTree)>,
    answers: Map<Seq<char>, Option<WorkingTree>>,
    path: Seq<char>,
)
    requires
        are_answers(list, answers),
    ensures
        tells_of(list, path) <==> answers.contains_key(path) && answers[path] is Some,
{
    let keys = choose|keys: Seq<Seq<char>>|
        text::ascending(keys) && (forall|k: Seq<char>| #[trigger]
            keys.contains(k) <==> answers.contains_key(k)) && answer_views(list)
            == #[trigger] answered(keys, answers);
    let all = answered(keys, answers);
    lemma_answered_tells(keys, answers, path);
    assert(all.len() == list.len());
    if tells_of(list, path) {
        let i = choose|i: int| 0 <= i < list.len() && (#[trigger] list[i]).0@ == path;
        assert(all[i].0 == path);
    }
    if exists|i: int| 0 <= i < all.len() && (#[trigger] all[i]).0 == path {
        let i = choose|i: int| 0 <= i < all.len() && (#[trigger] all[i]).0 == path;
        assert(list[i].0@ == path);
    }
}

proof fn lemma_one_is_out(out: Multiset<(u64, Seq<char>)>, walk: (u64, Seq<char>))
    requires
        out.contains(walk),
    ensures
        out.len() > 0,
{
    broadcast use vstd::multiset::group_multiset_axioms;

    assert(out.remove(walk).insert(walk) =~= out);
    assert(out.remove(walk).insert(walk).len() == out.remove(walk).len() + 1);
}

/// However the questions were put and the replies came in, an answer is only ever about a checkout
/// of the tree that was asked about last. One of those without an answer waits for its walk or is
/// being walked, so an answer is still to come; and where none is to come, the answers are about
/// exactly the checkouts of that tree.
pub proof fn law_every_checkout_is_answered_for(
    events: Seq<Event>,
    list: Seq<(String, WorkingTree)>,
    path: Seq<char>,
)
    requires
        can_be(events),
        are_answers(list, after(events).state.answers),
    ensures
        tells_of(list, path) ==> last_asked(events).contains(path),
        last_asked(events).contains(path) && !tells_of(list, path) ==> is_on_its_way(
            after(events),
            path,
        ) && is_awaited(after(events).state),
        !is_awaited(after(events).state) ==> (tells_of(list, path) <==> last_asked(events).contains(
            path,
        )),
        after(events).state.in_flight == after(events).out.len(),
{
    broadcast use vstd::multiset::group_multiset_axioms;

    lemma_after_accounted(events);
    let watched = after(events);
    lemma_answers_tell(list, watched.state.answers, path);
    assert(watched.state.answers.contains_key(path) <==> last_asked(events).contains(path));
    if last_asked(events).contains(path) && !tells_of(list, path) {
        assert(is_on_its_way(watched, path));
        if watched.out.contains((watched.state.generation, path)) {
            lemma_one_is_out(watched.out, (watched.state.generation, path));
        }
    }
}

// ---------------------------------------------------------------- laws of one step

/// A walk that found changes makes its checkout dirty, one that found none makes it clean, and one
/// that could not look makes it unreadable. It says nothing of another checkout, and it no longer
/// runs. Replies are read one after the other.
pub proof fn law_reply_is_what_the_walk_found(
    state: DirtyView,
    first: Seq<WalkReply>,
    second: Seq<WalkReply>,
    reply: WalkReply,
    other: Seq<char>,
)
    requires
        state.in_flight > 0,
    ensures
        drained(state, first + second) == drained(drained(state, first), second),
        drained(state, seq![]) == state,
        ({
            let after = drained(state, seq![reply]);
            let path = reply.checkout_path@;
            &&& after.in_flight + 1 == state.in_flight
            &&& after.generation == state.generation
            &&& after.queued == state.queued
            &&& after.answers.dom() == state.answers.dom()
            &&& reply.generation == state.generation && state.answers.contains_key(path) ==> (
            after.answers[path] == Some(
                if reply.dirty == Some(true) {
                    WorkingTree::Dirty
                } else if reply.dirty == Some(false) {
                    WorkingTree::Clean
                } else {
                    WorkingTree::Unreadable
                },
            ))
            &&& other != path ==> after.answers[other] == state.answers[other]
        }),
{
    lemma_drained_joined(state, first, second);
    assert(seq![reply].drop_last() =~= seq![]);
    assert(drained(state, seq![reply].drop_last()) == state);
    assert(seq![reply].last() == reply);
    assert(drained(state, seq![reply]).answers.dom() =~= state.answers.dom());
}

proof fn lemma_drained_joined(state: DirtyView, first: Seq<WalkReply>, second: Seq<WalkReply>)
    ensures
        drained(state, first + second) == drained(drained(state, first), second),
    decreases second.len(),
{
    let both = first + second;
    if second.len() == 0 {
        assert(both =~= first);
    } else {
        lemma_drained_joined(state, first, second.drop_last());
        assert(both.drop_last() =~= first + second.drop_last());
        assert(both.last() == second.last());
    }
}

/// The checkouts that waited longest are walked first, in this round, and those that are not
/// walked yet wait on in their order. Eight walks run at once at most.
pub proof fn law_longest_waiting_is_walked_first(state: DirtyView)
    requires
        state.valid(),
    ensures
        MAX_IN_FLIGHT == 8,
        Seq::new(started(state).len(), |i: int| started(state)[i].1) + pumped(state).queued
            == state.queued,
        forall|i: int|
            0 <= i < started(state).len() ==> (#[trigger] started(state)[i]).0 == state.generation,
        pumped(state).in_flight == state.in_flight + started(state).len(),
        pumped(state).answers == state.answers,
        pumped(state).generation == state.generation,
{
}

/// A checkout that waits goes on waiting while the tree has it, and is forgotten once it does not.
/// Those that wait are looked at one by one and keep their order.
pub proof fn law_waiting_follows_the_tree(
    first: Seq<Seq<char>>,
    second: Seq<Seq<char>>,
    paths: Seq<Seq<char>>,
    path: Seq<char>,
)
    ensures
        only_listed(first + second, paths) == only_listed(first, paths) + only_listed(
            second,
            paths,
        ),
        paths.contains(path) ==> only_listed(seq![path], paths) == seq![path],
        !paths.contains(path) ==> only_listed(seq![path], paths).len() == 0,
{
    lemma_only_listed_joined(first, second, paths);
    assert(seq![path].drop_last() =~= seq![]);
    assert(only_listed(seq![path].drop_last(), paths) == Seq::<Seq<char>>::empty());
    assert(seq![path].last() == path);
}

proof fn lemma_only_listed_joined(
    first: Seq<Seq<char>>,
    second: Seq<Seq<char>>,
    paths: Seq<Seq<char>>,
)
    ensures
        only_listed(first + second, paths) == only_listed(first, paths) + only_listed(
            second,
            paths,
        ),
    decreases second.len(),
{
    let both = first + second;
    if second.len() == 0 {
        assert(both =~= first);
    } else {
        lemma_only_listed_joined(first, second.drop_last(), paths);
        assert(both.drop_last() =~= first + second.drop_last());
        assert(both.last() == second.last());
    }
}

/// A checkout that is new waits behind all that wait already, and has no answer; one that was
/// asked about is not asked about again. Checkouts are taken one after the other.
pub proof fn law_new_checkout_waits_last(
    state: DirtyView,
    first: Seq<Seq<char>>,
    second: Seq<Seq<char>>,
    path: Seq<char>,
)
    ensures
        enrolled(state, first + second) == enrolled(enrolled(state, first), second),
        state.answers.contains_key(path) ==> enrolled(state, seq![path]) == state,
        !state.answers.contains_key(path) ==> {
            let after = enrolled(state, seq![path]);
            &&& after.queued == state.queued.push(path)
            &&& after.answers == state.answers.insert(path, None)
            &&& after.in_flight == state.in_flight
            &&& after.generation == state.generation
        },
{
    lemma_enrolled_joined(state, first, second);
    assert(seq![path].drop_last() =~= seq![]);
    assert(enrolled(state, seq![path].drop_last()) == state);
    assert(seq![path].last() == path);
}

proof fn lemma_enrolled_joined(
    state: DirtyView,
    first: Seq<Seq<char>>,
    second: Seq<Seq<char>>,
)
    ensures
        enrolled(state, first + second) == enrolled(enrolled(state, first), second),
    decreases second.len(),
{
    let both = first + second;
    if second.len() == 0 {
        assert(both =~= first);
    } else {
        lemma_enrolled_joined(state, first, second.drop_last());
        assert(both.drop_last() =~= first + second.drop_last());
        assert(both.last() == second.last());
    }
}

/// The answers that are told are those of the checkouts in order of their paths, each with its
/// own answer, and none of a checkout that has none yet.
pub proof fn law_answers_are_told_in_order(
    first: Seq<Seq<char>>,
    second: Seq<Seq<char>>,
    answers: Map<Seq<char>, Option<WorkingTree>>,
    path: Seq<char>,
    answer: WorkingTree,
)
    ensures
        answered(first + second, answers) == answered(first, answers) + answered(second, answers),
        answers[path] == Some(answer) ==> answered(seq![path], answers) == seq![(path, answer)],
        answers[path] is None ==> answered(seq![path], answers).len() == 0,
{
    lemma_answered_joined(first, second, answers);
    assert(seq![path].drop_last() =~= seq![]);
    assert(answered(seq![path].drop_last(), answers) == Seq::<(Seq<char>, WorkingTree)>::empty());
    assert(seq![path].last() == path);
}

proof fn lemma_answered_joined(
    first: Seq<Seq<char>>,
    second: Seq<Seq<char>>,
    answers: Map<Seq<char>, Option<WorkingTree>>,
)
    ensures
        answered(first + second, answers) == answered(first, answers) + answered(second, answers),
    decreases second.len(),
{
    let both = first + second;
    if second.len() == 0 {
        assert(both =~= first);
    } else {
        lemma_answered_joined(first, second.drop_last(), answers);
        assert(both.drop_last() =~= first + second.drop_last());
        assert(both.last() == second.last());
    }
}

/// The walks to start are those that are handed out, one for one, and the answers that are told are
/// each of their own checkout.
pub proof fn law_walks_are_of_their_checkouts(
    walks: Seq<Walk>,
    i: int,
    told: Seq<(String, WorkingTree)>,
    j: int,
)
    requires
        0 <= i < walks.len(),
        0 <= j < told.len(),
    ensures
        walk_views(walks).len() == walks.len(),
        walk_views(walks)[i].0 == walks[i].generation,
        walk_views(walks)[i].1 == walks[i].checkout_path@,
        answer_views(told).len() == told.len(),
        answer_views(told)[j].0 == told[j].0@,
        answer_views(told)[j].1 == told[j].1,
{
}

/// While as many walks run as may, or more, none is started and nothing changes.
pub proof fn law_no_walk_is_started_while_all_run(state: DirtyView)
    requires
        state.in_flight >= MAX_IN_FLIGHT,
    ensures
        started(state).len() == 0,
        pumped(state) == state,
{
    assert(pumped(state).queued =~= state.queued);
}

/// A new round has the next number, starts over once there is none, and begins with nothing known
/// and nothing waiting; the walks that run go on running.
pub proof fn law_new_round_has_the_next_number(state: DirtyView)
    ensures
        state.generation < u64::MAX ==> renewed(state).generation == state.generation + 1,
        state.generation == u64::MAX ==> renewed(state).generation == 0,
        renewed(state).in_flight == state.in_flight,
        renewed(state).queued.len() == 0,
        renewed(state).answers.dom() == Set::<Seq<char>>::empty(),
{
    assert(renewed(state).answers.dom() =~= Set::<Seq<char>>::empty());
}

/// An answer is awaited exactly while a walk runs or a checkout waits for one; before any question
/// none is.
pub proof fn law_awaited_is_what_runs_or_waits(state: DirtyView)
    ensures
        is_awaited(state) <==> state.in_flight > 0 || state.queued.len() > 0,
        !is_awaited(fresh()),
        fresh().valid(),
        fresh().generation == 0,
        fresh().answers.dom() == Set::<Seq<char>>::empty(),
{
    assert(fresh().answers.dom() =~= Set::<Seq<char>>::empty());
}

/// A tree can be asked about, and asked about again, at any time; replies can be read only of walks
/// that are out.
pub proof fn law_only_walks_that_are_out_reply(
    events: Seq<Event>,
    paths: Seq<Seq<char>>,
    replies: Seq<WalkReply>,
)
    ensures
        can_be(seq![]),
        can_be(events) <==> can_be(events.push(Event::Ask(paths))),
        can_be(events) <==> can_be(events.push(Event::Reask(paths))),
        can_be(events.push(Event::Drain(replies))) <==> can_be(events) && are_replies(
            after(events).out,
            replies,
        ),
{
    assert(events.push(Event::Ask(paths)).drop_last() =~= events);
    assert(events.push(Event::Reask(paths)).drop_last() =~= events);
    assert(events.push(Event::Drain(replies)).drop_last() =~= events);
    assert(events.push(Event::Ask(paths)).last() == Event::Ask(paths));
    assert(events.push(Event::Reask(paths)).last() == Event::Reask(paths));
    assert(events.push(Event::Drain(replies)).last() == Event::Drain(replies));
}

} // verus!
