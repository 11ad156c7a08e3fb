//! The branches picker while it is up: what it shows, and what arrives behind it.

use vstd::prelude::*;

use crate::branches;
use crate::branches::{
    answer, apply, perform, read, BranchAction, BranchData, BranchDataView, Exit, Listings,
    RemoteView, Stage, Update,
};
use crate::ordered::OrderedMap;
use crate::port::{GitRef, GitRefView};
use crate::shapes;
use crate::text::same;

verus! {

/// What the picker shows, and what it has read.
pub struct Picker {
    /// What was read of each repository.
    pub cache: OrderedMap<BranchData>,
    /// The repository that is shown.
    pub repo_root: String,
    /// What is shown of it.
    pub data: BranchData,
    pub message: Option<String>,
    /// What is being done to get onto a branch.
    pub stage: Option<Stage>,
    /// Why the branch that was chosen could not be got onto.
    pub failure: Option<String>,
}

#[verifier::ext_equal]
pub struct PickerView {
    pub cache: Map<Seq<char>, BranchDataView>,
    pub repo_root: Seq<char>,
    pub data: BranchDataView,
    pub message: Option<Seq<char>>,
    pub stage: Option<Stage>,
    pub failure: Option<Seq<char>>,
}

impl View for Picker {
    type V = PickerView;

    open spec fn view(&self) -> PickerView {
        PickerView {
            cache: shapes::map_views(self.cache@),
            repo_root: self.repo_root@,
            data: self.data@,
            message: shapes::opt(self.message),
            stage: self.stage,
            failure: shapes::opt(self.failure),
        }
    }
}

/// What was read of a repository; nothing where it was not.
pub open spec fn entry_of(cache: Map<Seq<char>, BranchDataView>, repo_root: Seq<char>) -> BranchDataView {
    if cache.contains_key(repo_root) {
        cache[repo_root]
    } else {
        branches::no_data()
    }
}

/// The picker once this is known of a repository: it is kept, and shown where that repository is.
pub open spec fn knowing(picker: PickerView, repo_root: Seq<char>, data: BranchDataView) -> PickerView {
    PickerView {
        cache: picker.cache.insert(repo_root, data),
        data: if picker.repo_root == repo_root {
            data
        } else {
            picker.data
        },
        ..picker
    }
}

/// What an update makes the loop do.
pub enum Wanted {
    Nothing,
    /// Read the refs of this repository again.
    ReadRefs(String),
    /// Leave: the branch is there.
    Leave,
}

/// What the picker is once an update has arrived.
pub open spec fn updated(
    picker: PickerView,
    listings: Map<Seq<char>, RemoteView>,
    update: Update,
) -> PickerView {
    match update {
        Update::Fetched { result: Ok(_), .. } => picker,
        Update::Fetched { repo_root, result: Err(words) } => {
            let data = BranchDataView {
                fetching: false,
                ..entry_of(picker.cache, repo_root@)
            };
            PickerView {
                message: if picker.repo_root == repo_root@ {
                    Some(words@)
                } else {
                    picker.message
                },
                ..knowing(picker, repo_root@, data)
            }
        },
        Update::Working(stage) => PickerView { stage: Some(stage), ..picker },
        Update::Done(Ok(_)) => picker,
        Update::Done(Err(words)) => PickerView {
            stage: None,
            message: Some(words@),
            failure: Some(words@),
            ..picker
        },
        Update::RemoteHeads { repo_root, heads } => heard(
            picker,
            listings,
            repo_root@,
            branches::Answer::Heads(heads),
        ),
        Update::RemoteUnavailable { repo_root } => heard(
            picker,
            listings,
            repo_root@,
            branches::Answer::Unavailable,
        ),
        Update::PullRequests { repo_root, pull_requests } => heard(
            picker,
            listings,
            repo_root@,
            branches::Answer::PullRequests(pull_requests),
        ),
    }
}

/// What the picker is once an answer about a remote has arrived.
pub open spec fn heard(
    picker: PickerView,
    listings: Map<Seq<char>, RemoteView>,
    repo_root: Seq<char>,
    answer: branches::Answer,
) -> PickerView {
    match branches::known(listings, repo_root, answer) {
        Some(remote) => knowing(
            picker,
            repo_root,
            BranchDataView {
                remote_heads: remote.heads,
                pull_requests: remote.pull_requests,
                loading: remote.loading,
                ..entry_of(picker.cache, repo_root)
            },
        ),
        None => picker,
    }
}

/// What is known of the remotes once an update has arrived.
pub open spec fn listings_updated(
    listings: Map<Seq<char>, RemoteView>,
    update: Update,
) -> Map<Seq<char>, RemoteView> {
    match update {
        Update::Fetched { repo_root, result: Ok(_) } => branches::kept(
            listings,
            repo_root@,
            branches::Answer::Refetched,
        ),
        Update::RemoteHeads { repo_root, heads } => branches::kept(
            listings,
            repo_root@,
            branches::Answer::Heads(heads),
        ),
        Update::RemoteUnavailable { repo_root } => branches::kept(
            listings,
            repo_root@,
            branches::Answer::Unavailable,
        ),
        Update::PullRequests { repo_root, pull_requests } => branches::kept(
            listings,
            repo_root@,
            branches::Answer::PullRequests(pull_requests),
        ),
        _ => listings,
    }
}

impl Picker {
    /// The picker on a repository of which nothing was read.
    pub fn new(repo_root: String) -> (picker: Picker)
        ensures
            picker@ == (PickerView {
                cache: Map::empty(),
                repo_root: repo_root@,
                data: branches::no_data(),
                message: None,
                stage: None,
                failure: None,
            }),
    {
        let picker = Picker {
            cache: OrderedMap::new(),
            repo_root,
            data: BranchData::empty(),
            message: None,
            stage: None,
            failure: None,
        };
        assert(picker@.cache =~= Map::<Seq<char>, BranchDataView>::empty());
        picker
    }

    /// Shows a repository. Gives whether its refs have to be read first.
    pub fn show(&mut self, repo_root: &str) -> (unread: bool)
        ensures
            unread == !old(self)@.cache.contains_key(repo_root@),
            final(self)@ == (PickerView {
                repo_root: repo_root@,
                data: if old(self)@.cache.contains_key(repo_root@) {
                    old(self)@.cache[repo_root@]
                } else {
                    old(self)@.data
                },
                ..old(self)@
            }),
    {
        self.repo_root = repo_root.to_owned();
        let found = match self.cache.get(repo_root) {
            Some(data) => Some(data.copy()),
            None => None,
        };
        match found {
            Some(data) => {
                self.data = data;
                false
            },
            None => true,
        }
    }

    /// What was read of a repository.
    fn entry(&self, repo_root: &str) -> (data: BranchData)
        ensures
            data@ == entry_of(self@.cache, repo_root@),
    {
        match self.cache.get(repo_root) {
            Some(data) => data.copy(),
            None => BranchData::empty(),
        }
    }

    /// Keeps what is known of a repository, and shows it where that repository is.
    fn know(&mut self, repo_root: &str, data: BranchData)
        ensures
            final(self)@ == knowing(old(self)@, repo_root@, data@),
    {
        if same(self.repo_root.as_str(), repo_root) {
            self.data = data.copy();
        }
        proof {
            shapes::lemma_map_views_insert(self.cache@, repo_root@, data);
        }
        self.cache.insert(repo_root.to_owned(), data);
    }

    /// Takes in the refs of a repository; one that git would not read has none. Gives whether its
    /// remote has to be asked.
    pub fn take_refs(
        &mut self,
        listings: &mut Listings,
        repo_root: &str,
        refs: Result<Vec<GitRef>, String>,
    ) -> (ask: bool)
        ensures
            ask == branches::has_to_ask(shapes::map_views(old(listings)@), repo_root@),
            shapes::map_views(final(listings)@) == branches::listings_read(
                shapes::map_views(old(listings)@),
                repo_root@,
            ),
            final(self)@ == knowing(
                old(self)@,
                repo_root@,
                branches::data_read(
                    shapes::map_views(old(listings)@),
                    repo_root@,
                    match refs {
                        Ok(list) => shapes::views(list@),
                        Err(_) => Seq::<GitRefView>::empty(),
                    },
                ),
            ),
    {
        let list = match refs {
            Ok(list) => list,
            Err(_) => {
                let none: Vec<GitRef> = Vec::new();
                assert(shapes::views(none@) =~= Seq::<GitRefView>::empty());
                none
            },
        };
        let (data, ask) = read(listings, repo_root, list);
        self.know(repo_root, data);
        ask
    }

    /// Takes in what arrived.
    pub fn update(&mut self, listings: &mut Listings, update: Update) -> (wanted: Wanted)
        ensures
            final(self)@ == updated(old(self)@, shapes::map_views(old(listings)@), update),
            shapes::map_views(final(listings)@) == listings_updated(
                shapes::map_views(old(listings)@),
                update,
            ),
            match update {
                Update::Fetched { repo_root, result: Ok(_) } => wanted == Wanted::ReadRefs(
                    repo_root,
                ),
                Update::Done(Ok(_)) => wanted == Wanted::Leave,
                _ => wanted == Wanted::Nothing,
            },
    {
        match update {
            Update::Fetched { repo_root, result } => match result {
                Ok(_) => {
                    apply(listings, repo_root.as_str(), branches::Answer::Refetched);
                    Wanted::ReadRefs(repo_root)
                },
                Err(words) => {
                    let mut data = self.entry(repo_root.as_str());
                    data.end_fetch();
                    self.know(repo_root.as_str(), data);
                    if same(self.repo_root.as_str(), repo_root.as_str()) {
                        self.message = Some(words);
                    }
                    Wanted::Nothing
                },
            },
            Update::Working(stage) => {
                self.stage = Some(stage);
                Wanted::Nothing
            },
            Update::Done(Ok(_)) => Wanted::Leave,
            Update::Done(Err(words)) => {
                self.stage = None;
                self.message = Some(words.clone());
                self.failure = Some(words);
                Wanted::Nothing
            },
            Update::RemoteHeads { repo_root, heads } => {
                self.hear(listings, repo_root.as_str(), branches::Answer::Heads(heads));
                Wanted::Nothing
            },
            Update::RemoteUnavailable { repo_root } => {
                self.hear(listings, repo_root.as_str(), branches::Answer::Unavailable);
                Wanted::Nothing
            },
            Update::PullRequests { repo_root, pull_requests } => {
                self.hear(
                    listings,
                    repo_root.as_str(),
                    branches::Answer::PullRequests(pull_requests),
                );
                Wanted::Nothing
            },
        }
    }

    /// Takes in an answer about a remote.
    fn hear(&mut self, listings: &mut Listings, repo_root: &str, answer: branches::Answer)
        ensures
            final(self)@ == heard(
                old(self)@,
                shapes::map_views(old(listings)@),
                repo_root@,
                answer,
            ),
            shapes::map_views(final(listings)@) == branches::kept(
                shapes::map_views(old(listings)@),
                repo_root@,
                answer,
            ),
    {
        match apply(listings, repo_root, answer) {
            Some(remote) => {
                let mut data = self.entry(repo_root);
                data.set_remote(remote);
                self.know(repo_root, data);
            },
            None => {},
        }
    }

    /// Starts a fetch of a repository, unless one is running. Gives whether it did.
    pub fn start_fetch(&mut self, repo_root: &str) -> (started: bool)
        ensures
            started == !entry_of(old(self)@.cache, repo_root@).fetching,
            final(self)@ == if started {
                let data = BranchDataView {
                    fetching: true,
                    ..entry_of(old(self)@.cache, repo_root@)
                };
                PickerView { cache: old(self)@.cache.insert(repo_root@, data), data, ..old(self)@ }
            } else {
                old(self)@
            },
    {
        let mut data = self.entry(repo_root);
        if !data.start_fetch() {
            return false;
        }
        self.data = data.copy();
        proof {
            shapes::lemma_map_views_insert(self.cache@, repo_root@, data);
        }
        self.cache.insert(repo_root.to_owned(), data);
        true
    }

    /// Starts to get onto a branch: from here on the picker shows how that goes.
    pub fn choose_branch(&mut self, branch: &str)
        ensures
            final(self)@ == (PickerView { stage: final(self)@.stage, ..old(self)@ }),
            final(self)@.stage matches Some(Stage::Starting { branch: b }) && b@ == branch@,
    {
        self.stage = Some(Stage::Starting { branch: branch.to_owned() });
    }

    /// How an action that ends the picker ends it: with what went wrong where something did, and
    /// else with an end and a pane to go to before it.
    pub fn finish(self, action: BranchAction) -> (end: Result<(Exit, Option<String>), String>)
        ensures
            match self.failure {
                Some(words) => end == Err::<(Exit, Option<String>), _>(words),
                None => match action {
                    BranchAction::ShowPanes => end == Ok::<_, String>(
                        (Exit::ShowPanes, None::<String>),
                    ),
                    BranchAction::Jump { pane_id } => end == Ok::<_, String>(
                        (Exit::Closed, Some(pane_id)),
                    ),
                    _ => end == Ok::<_, String>((Exit::Closed, None::<String>)),
                },
            },
    {
        match self.failure {
            Some(words) => Err(words),
            None => Ok(perform(action)),
        }
    }
}

/// What is known of the remotes once the updates that came too late to be shown are taken in.
pub open spec fn listings_after(
    listings: Map<Seq<char>, RemoteView>,
    updates: Seq<Update>,
) -> Map<Seq<char>, RemoteView>
    decreases updates.len(),
{
    if updates.len() == 0 {
        listings
    } else {
        listings_updated(listings_after(listings, updates.drop_last()), updates.last())
    }
}

/// Takes in the updates that came too late to be shown.
pub fn take_late(listings: &mut Listings, updates: Vec<Update>)
    ensures
        shapes::map_views(final(listings)@) == listings_after(
            shapes::map_views(old(listings)@),
            updates@,
        ),
{
    let ghost all = updates@;
    let mut left = shapes::reversed(updates);
    assert(left@.reverse() =~= all);
    assert(all.take(0) =~= Seq::<Update>::empty());
    while left.len() > 0
        invariant
            left@.len() <= all.len(),
            left@.reverse() == all.skip(all.len() - left@.len()),
            shapes::map_views(listings@) == listings_after(
                shapes::map_views(old(listings)@),
                all.take(all.len() - left@.len()),
            ),
        decreases left@.len(),
    {
        let ghost at = all.len() - left@.len();
        assert(left@.last() == left@.reverse()[0]);
        assert(left@.reverse()[0] == all[at]);
        assert(all.take(at + 1).drop_last() =~= all.take(at));
        assert(all.take(at + 1).last() == all[at]);
        let ghost before = left@;
        match left.pop() {
            Some(update) => {
                take_one(listings, update);
            },
            None => {},
        }
        assert(left@ =~= before.drop_last());
        assert(left@.reverse() =~= before.reverse().skip(1));
        assert(all.skip(at).skip(1) =~= all.skip(at + 1));
    }
    assert(all.take(all.len() as int) =~= all);
}

fn take_one(listings: &mut Listings, update: Update)
    ensures
        shapes::map_views(final(listings)@) == listings_updated(
            shapes::map_views(old(listings)@),
            update,
        ),
{
    let root = match update.repo_root() {
        Some(root) => root.to_owned(),
        None => {
            return;
        },
    };
    match answer(update) {
        Some(answer) => {
            apply(listings, root.as_str(), answer);
        },
        None => {},
    }
}

/// An update about a repository that is not shown changes nothing that is.
pub proof fn law_only_the_shown_repository_is_redrawn(
    picker: PickerView,
    listings: Map<Seq<char>, RemoteView>,
    update: Update,
)
    requires
        branches::root_of(update) matches Some(root) && root != picker.repo_root,
    ensures
        ({
            let after = updated(picker, listings, update);
            &&& after.data == picker.data
            &&& after.message == picker.message
            &&& after.stage == picker.stage
            &&& after.repo_root == picker.repo_root
        }),
{
}

/// Where a fetch failed the picker holds what it had read of every repository, but for the fetch.
pub proof fn law_failed_fetch_keeps_what_was_read(
    picker: PickerView,
    listings: Map<Seq<char>, RemoteView>,
    repo_root: String,
    words: String,
    other: Seq<char>,
)
    requires
        picker.cache.contains_key(other),
    ensures
        ({
            let update = Update::Fetched { repo_root, result: Err(words) };
            let after = updated(picker, listings, update);
            &&& after.cache.contains_key(other)
            &&& after.cache[other].local_refs == picker.cache[other].local_refs
            &&& after.cache[other].remote_heads == picker.cache[other].remote_heads
            &&& after.cache[other].pull_requests == picker.cache[other].pull_requests
            &&& listings_updated(listings, update) == listings
        }),
{
}

/// What is known of a repository is kept for it and for no other, and is shown only where that
/// repository is.
pub proof fn law_known_is_kept_and_shown(
    picker: PickerView,
    repo_root: Seq<char>,
    data: BranchDataView,
    other: Seq<char>,
)
    requires
        other != repo_root,
    ensures
        ({
            let after = knowing(picker, repo_root, data);
            &&& entry_of(after.cache, repo_root) == data
            &&& entry_of(after.cache, other) == entry_of(picker.cache, other)
            &&& picker.repo_root == repo_root ==> after.data == data
            &&& picker.repo_root != repo_root ==> after.data == picker.data
            &&& after == (PickerView { cache: after.cache, data: after.data, ..picker })
        }),
        entry_of(Map::empty(), repo_root) == (BranchDataView {
            local_refs: seq![],
            remote_heads: seq![],
            pull_requests: seq![],
            loading: false,
            fetching: false,
        }),
{
}

/// A remote that answers changes what is known of it and nothing that was read of its repository:
/// the local refs and a fetch that runs stay as they are.
pub proof fn law_answer_of_a_remote_keeps_what_was_read(
    picker: PickerView,
    listings: Map<Seq<char>, RemoteView>,
    repo_root: Seq<char>,
    answer: branches::Answer,
)
    requires
        !(answer is Refetched),
        listings.contains_key(repo_root),
    ensures
        ({
            let after = heard(picker, listings, repo_root, answer);
            let was = entry_of(picker.cache, repo_root);
            let now = entry_of(after.cache, repo_root);
            let remote = branches::kept(listings, repo_root, answer)[repo_root];
            &&& now.local_refs == was.local_refs
            &&& now.fetching == was.fetching
            &&& now.remote_heads == remote.heads
            &&& now.pull_requests == remote.pull_requests
            &&& now.loading == remote.loading
            &&& picker.repo_root == repo_root ==> after.data == now
            &&& after.message == picker.message
            &&& after.failure == picker.failure
            &&& after.stage == picker.stage
        }),
{
}

/// What went wrong on the way to a branch is said, is kept as what went wrong, and ends the way.
/// A step on that way is shown, and neither that nor a good end changes anything else.
pub proof fn law_way_to_a_branch_is_shown(
    picker: PickerView,
    listings: Map<Seq<char>, RemoteView>,
    stage: Stage,
    words: String,
)
    ensures
        updated(picker, listings, Update::Done(Err(words))) == (PickerView {
            stage: None,
            message: Some(words@),
            failure: Some(words@),
            ..picker
        }),
        updated(picker, listings, Update::Working(stage)) == (PickerView {
            stage: Some(stage),
            ..picker
        }),
        updated(picker, listings, Update::Done(Ok(()))) == picker,
        listings_updated(listings, Update::Working(stage)) == listings,
        listings_updated(listings, Update::Done(Err(words))) == listings,
{
}

/// A fetch that failed no longer runs, and its words are shown where its repository is. One that
/// went well has the remote forgotten, so that it is asked again.
pub proof fn law_fetch_ends(
    picker: PickerView,
    listings: Map<Seq<char>, RemoteView>,
    repo_root: String,
    words: String,
)
    ensures
        ({
            let failed = Update::Fetched { repo_root, result: Err(words) };
            let after = updated(picker, listings, failed);
            &&& !entry_of(after.cache, repo_root@).fetching
            &&& picker.repo_root == repo_root@ ==> after.message == Some(words@)
                && !after.data.fetching
            &&& after.failure == picker.failure
        }),
        ({
            let fetched = Update::Fetched { repo_root, result: Ok(()) };
            &&& updated(picker, listings, fetched) == picker
            &&& listings_updated(listings, fetched) == listings.remove(repo_root@)
        }),
{
}

/// Updates that came too late are taken in one after the other, each as it would have been.
pub proof fn law_late_updates_are_taken_in_order(
    listings: Map<Seq<char>, RemoteView>,
    updates: Seq<Update>,
    last: Update,
)
    ensures
        listings_after(listings, seq![]) == listings,
        listings_after(listings, updates.push(last)) == listings_updated(
            listings_after(listings, updates),
            last,
        ),
{
    assert(updates.push(last).drop_last() =~= updates);
    assert(updates.push(last).last() == last);
}

} // verus!
