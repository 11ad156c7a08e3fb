//! Asking GitHub's command line: what it is given, and what its answers say.

use vstd::prelude::*;

use crate::git_cli;
use crate::git_cli::{lossy_text, owned, Ran};
use crate::port::{
    Invocation, InvocationView, PullRequest, PullRequestOutcome, PullRequestView,
    SettledPullRequest, SettledPullRequestView, SettledPullRequests, SettledPullRequestsView, Slug,
};
use crate::shapes;
use crate::text;
use crate::text::{chars_of, decimal_text, lines_of, text_of, trimmed};

verus! {

/// How many settled pull requests are asked for at most.
pub const SETTLED_LIMIT: usize = 300;

/// The arguments that list the settled pull requests of a repository.
pub open spec fn settled_arguments_of(slug: Seq<char>) -> Seq<Seq<char>> {
    seq![
        "pr"@,
        "list"@,
        "-R"@,
        slug,
        "--state"@,
        "closed"@,
        "--limit"@,
        text::decimal(SETTLED_LIMIT as nat),
        "--json"@,
        "number,headRefName,isCrossRepository,state"@,
    ]
}

/// The arguments that list the settled pull requests of a repository.
pub fn settled_arguments(slug: &Slug) -> (args: Vec<String>)
    ensures
        text::texts(args@) == settled_arguments_of(slug@),
{
    let limit = decimal_text(SETTLED_LIMIT as u64);
    let args = owned(
        [
            "pr",
            "list",
            "-R",
            slug.as_str(),
            "--state",
            "closed",
            "--limit",
            limit.as_str(),
            "--json",
            "number,headRefName,isCrossRepository,state",
        ].as_slice(),
    );
    assert(text::texts(args@) =~= settled_arguments_of(slug@));
    args
}

/// The arguments that list the open pull requests of a repository.
pub open spec fn open_arguments_of(slug: Seq<char>) -> Seq<Seq<char>> {
    seq![
        "-R"@,
        slug,
        "pr"@,
        "list"@,
        "--state"@,
        "open"@,
        "--limit"@,
        "100"@,
        "--json"@,
        "number,title,headRefName,isDraft"@,
    ]
}

/// The command that lists the open pull requests of a repository.
pub fn open_command(slug: &Slug) -> (command: Invocation)
    ensures
        command@ == (InvocationView {
            program: "gh"@,
            args: open_arguments_of(slug@),
            envs: seq![],
        }),
        command@.args == seq![
            "-R"@,
            slug@,
            "pr"@,
            "list"@,
            "--state"@,
            "open"@,
            "--limit"@,
            "100"@,
            "--json"@,
            "number,title,headRefName,isDraft"@,
        ],
{
    let args = owned(
        [
            "-R",
            slug.as_str(),
            "pr",
            "list",
            "--state",
            "open",
            "--limit",
            "100",
            "--json",
            "number,title,headRefName,isDraft",
        ].as_slice(),
    );
    assert(text::texts(args@) =~= open_arguments_of(slug@));
    Invocation { program: "gh".to_owned(), args, envs: Vec::new() }
}

/// The command that lists the settled pull requests of a repository.
pub fn settled_command(slug: &Slug) -> (command: Invocation)
    ensures
        command@ == (InvocationView {
            program: "gh"@,
            args: settled_arguments_of(slug@),
            envs: seq![],
        }),
{
    Invocation { program: "gh".to_owned(), args: settled_arguments(slug), envs: Vec::new() }
}

/// The state that a row of the settled listing gives a pull request.
#[derive(Debug, Clone, Copy, PartialEq, Eq, Structural)]
pub enum GhState {
    Merged,
    Closed,
    Other,
}

/// A row of the settled listing.
#[derive(Debug, Clone, PartialEq, Eq)]
pub struct GhSettled {
    pub number: u64,
    pub head_ref_name: String,
    pub is_cross_repository: bool,
    pub state: GhState,
}

/// A row of the open listing.
#[derive(Debug, Clone, PartialEq, Eq)]
pub struct GhPullRequest {
    pub number: u64,
    pub title: String,
    pub head_ref_name: String,
    pub is_draft: bool,
}

/// The settled pull request that a row names, where its state is known.
pub open spec fn settled_row(row: GhSettled) -> Option<SettledPullRequestView> {
    let outcome = match row.state {
        GhState::Merged => Some(PullRequestOutcome::Merged),
        GhState::Closed => Some(PullRequestOutcome::Closed),
        GhState::Other => None,
    };
    match outcome {
        None => None,
        Some(outcome) => Some(
            SettledPullRequestView {
                number: row.number,
                head_ref: row.head_ref_name@,
                from_a_fork: row.is_cross_repository,
                outcome,
            },
        ),
    }
}

/// The settled pull requests that the rows name, in their order.
pub open spec fn settled_rows(rows: Seq<GhSettled>) -> Seq<SettledPullRequestView>
    decreases rows.len(),
{
    if rows.len() == 0 {
        seq![]
    } else {
        let so_far = settled_rows(rows.drop_last());
        match settled_row(rows.last()) {
            Some(found) => so_far.push(found),
            None => so_far,
        }
    }
}

/// Whether the rows are the whole answer: fewer than were asked for, each with a known state.
pub open spec fn whole_answer(rows: Seq<GhSettled>, limit: nat) -> bool {
    &&& rows.len() < limit
    &&& forall|i: int| 0 <= i < rows.len() ==> (#[trigger] rows[i]).state != GhState::Other
}

/// What the rows of the settled listing say, when `limit` of them were asked for.
pub open spec fn settled_of_rows(rows: Seq<GhSettled>, limit: nat) -> SettledPullRequestsView {
    if whole_answer(rows, limit) {
        SettledPullRequestsView::All(settled_rows(rows))
    } else {
        SettledPullRequestsView::Window(settled_rows(rows))
    }
}

/// What the settled listing says, from its rows or from the words for why they could not be read.
pub open spec fn settled_of(parsed: Result<Vec<GhSettled>, String>, limit: nat) -> Result<
    SettledPullRequestsView,
    Seq<char>,
> {
    match parsed {
        Err(error) => Err("gh answered in a shape this does not know: "@ + error@),
        Ok(rows) => Ok(settled_of_rows(rows@, limit)),
    }
}

/// What the settled listing says.
pub fn read_settled(parsed: Result<Vec<GhSettled>, String>, limit: usize) -> (read: Result<
    SettledPullRequests,
    String,
>)
    ensures
        shapes::outcome(read) == settled_of(parsed, limit as nat),
{
    let rows = match parsed {
        Err(error) => {
            let mut words = "gh answered in a shape this does not know: ".to_owned();
            words.append(error.as_str());
            return Err(words);
        },
        Ok(rows) => rows,
    };
    let mut whole = rows.len() < limit;
    let mut list: Vec<SettledPullRequest> = Vec::new();
    let mut i: usize = 0;
    while i < rows.len()
        invariant
            i <= rows@.len(),
            shapes::views(list@) == settled_rows(rows@.take(i as int)),
            whole == (rows@.len() < limit && forall|j: int|
                0 <= j < i ==> (#[trigger] rows@[j]).state != GhState::Other),
        decreases rows@.len() - i,
    {
        proof {
            assert(rows@.take(i + 1).drop_last() =~= rows@.take(i as int));
            assert(rows@.take(i + 1).last() == rows@[i as int]);
        }
        let row = &rows[i];
        let outcome = match row.state {
            GhState::Merged => Some(PullRequestOutcome::Merged),
            GhState::Closed => Some(PullRequestOutcome::Closed),
            GhState::Other => None,
        };
        match outcome {
            None => {
                whole = false;
            },
            Some(outcome) => {
                let found = SettledPullRequest {
                    number: row.number,
                    head_ref: row.head_ref_name.clone(),
                    from_a_fork: row.is_cross_repository,
                    outcome,
                };
                proof {
                    shapes::lemma_views_push(list@, found);
                }
                list.push(found);
            },
        }
        i = i + 1;
    }
    assert(rows@.take(i as int) =~= rows@);
    if whole {
        Ok(SettledPullRequests::All(list))
    } else {
        Ok(SettledPullRequests::Window(list))
    }
}

/// An answer that fills what was asked for is never taken for the whole.
pub proof fn law_full_window_is_not_the_whole(rows: Seq<GhSettled>, limit: nat)
    requires
        rows.len() >= limit,
    ensures
        settled_of_rows(rows, limit) is Window,
{
}

/// A state that is not known is left out, and the answer says that it is not the whole.
pub proof fn law_unknown_state_is_admitted(rows: Seq<GhSettled>, limit: nat, i: int)
    requires
        0 <= i < rows.len(),
        rows[i].state == GhState::Other,
    ensures
        settled_of_rows(rows, limit) is Window,
        settled_rows(rows).len() < rows.len(),
{
    lemma_settled_rows_short(rows, i);
}

proof fn lemma_settled_rows_short(rows: Seq<GhSettled>, i: int)
    requires
        0 <= i < rows.len(),
        rows[i].state == GhState::Other,
    ensures
        settled_rows(rows).len() < rows.len(),
    decreases rows.len(),
{
    if i == rows.len() - 1 {
        lemma_settled_rows_fit(rows.drop_last());
    } else {
        lemma_settled_rows_short(rows.drop_last(), i);
    }
}

proof fn lemma_settled_rows_fit(rows: Seq<GhSettled>)
    ensures
        settled_rows(rows).len() <= rows.len(),
    decreases rows.len(),
{
    if rows.len() > 0 {
        lemma_settled_rows_fit(rows.drop_last());
    }
}

/// The open pull requests that the rows name.
pub open spec fn open_rows(rows: Seq<GhPullRequest>) -> Seq<PullRequestView> {
    Seq::new(
        rows.len(),
        |i: int|
            PullRequestView {
                number: rows[i].number,
                title: rows[i].title@,
                head_ref: rows[i].head_ref_name@,
                is_draft: rows[i].is_draft,
            },
    )
}

/// The open pull requests of an answer: none where the program failed or its rows could not be
/// read.
pub fn open_answer(code: Option<i32>, parsed: Result<Vec<GhPullRequest>, String>) -> (list: Vec<
    PullRequest,
>)
    ensures
        shapes::views(list@) == match parsed {
            Ok(rows) => if code == Some(0i32) {
                open_rows(rows@)
            } else {
                seq![]
            },
            Err(_) => seq![],
        },
{
    let mut list: Vec<PullRequest> = Vec::new();
    let well = match code {
        Some(code) => code == 0,
        None => false,
    };
    if !well {
        return list;
    }
    let rows = match parsed {
        Ok(rows) => rows,
        Err(_) => {
            return list;
        },
    };
    let mut i: usize = 0;
    while i < rows.len()
        invariant
            i <= rows@.len(),
            shapes::views(list@) == open_rows(rows@).take(i as int),
        decreases rows@.len() - i,
    {
        let row = &rows[i];
        let found = PullRequest {
            number: row.number,
            title: row.title.clone(),
            head_ref: row.head_ref_name.clone(),
            is_draft: row.is_draft,
        };
        proof {
            shapes::lemma_views_push(list@, found);
            assert(open_rows(rows@).take(i + 1) =~= open_rows(rows@).take(i as int).push(found@));
        }
        list.push(found);
        i = i + 1;
    }
    assert(open_rows(rows@).take(i as int) =~= open_rows(rows@));
    list
}

/// The first of the lines that holds more than white space, trimmed.
pub open spec fn first_said(all: Seq<Seq<char>>) -> Option<Seq<char>>
    decreases all.len(),
{
    if all.len() == 0 {
        None
    } else if text::trim(all[0]).len() > 0 {
        Some(text::trim(all[0]))
    } else {
        first_said(all.skip(1))
    }
}

fn first_said_of(stderr: &str) -> (line: Option<String>)
    ensures
        shapes::opt(line) == first_said(text::lines(stderr@)),
{
    let cs = chars_of(stderr);
    let all = lines_of(cs.as_slice());
    let mut i: usize = 0;
    assert(text::pieces(all@).skip(0) =~= text::pieces(all@));
    while i < all.len()
        invariant
            i <= all@.len(),
            text::pieces(all@) == text::lines(stderr@),
            first_said(text::pieces(all@).skip(i as int)) == first_said(text::pieces(all@)),
        decreases all@.len() - i,
    {
        let line = trimmed(all[i]);
        assert(text::pieces(all@).skip(i as int)[0] == all@[i as int]@);
        if line.len() > 0 {
            return Some(text_of(line));
        }
        assert(text::pieces(all@).skip(i as int).skip(1) =~= text::pieces(all@).skip(i + 1));
        i = i + 1;
    }
    None
}

/// What the settled listing says, or the words for why there is none: the first that gh said, or
/// how it ended.
pub open spec fn settled_answer_of(
    code: Option<i32>,
    stderr: Seq<char>,
    status: Seq<char>,
    parsed: Result<Vec<GhSettled>, String>,
) -> Result<SettledPullRequestsView, Seq<char>> {
    if code == Some(0i32) {
        settled_of(parsed, SETTLED_LIMIT as nat)
    } else {
        match first_said(text::lines(stderr)) {
            Some(reason) => Err("gh refused the question this asked: "@ + reason),
            None => Err("gh would not answer ("@ + status + ")"@),
        }
    }
}

/// What the settled listing says, from how gh ended and from the rows of its output.
pub fn settled_answer(
    code: Option<i32>,
    stderr: &[u8],
    status: &str,
    parsed: Result<Vec<GhSettled>, String>,
) -> (answer: Result<SettledPullRequests, String>)
    ensures
        shapes::outcome(answer) == settled_answer_of(
            code,
            git_cli::lossy(stderr@),
            status@,
            parsed,
        ),
{
    settled_said(code, lossy_text(stderr).as_str(), status, parsed)
}

/// What the settled listing says, from how gh ended, what it said and the rows of its output.
pub fn settled_said(
    code: Option<i32>,
    stderr: &str,
    status: &str,
    parsed: Result<Vec<GhSettled>, String>,
) -> (answer: Result<SettledPullRequests, String>)
    ensures
        shapes::outcome(answer) == settled_answer_of(code, stderr@, status@, parsed),
{
    let well = match code {
        Some(code) => code == 0,
        None => false,
    };
    if well {
        return read_settled(parsed, SETTLED_LIMIT);
    }
    match first_said_of(stderr) {
        Some(reason) => {
            let mut words = "gh refused the question this asked: ".to_owned();
            words.append(reason.as_str());
            Err(words)
        },
        None => {
            let mut words = "gh would not answer (".to_owned();
            words.append(status);
            words.append(")");
            Err(words)
        },
    }
}

/// GitHub's command line.
pub struct GhCli;

impl GhCli {
    /// The open pull requests: none where gh could not be started.
    pub fn pull_requests(ran: &Ran, parsed: Result<Vec<GhPullRequest>, String>) -> (list: Vec<
        PullRequest,
    >)
        ensures
            shapes::views(list@) == match (*ran, parsed) {
                (Ok(output), Ok(rows)) => if output.code == Some(0i32) {
                    open_rows(rows@)
                } else {
                    seq![]
                },
                _ => seq![],
            },
    {
        match ran {
            Ok(output) => open_answer(output.code, parsed),
            Err(_) => {
                let none: Vec<PullRequest> = Vec::new();
                none
            },
        }
    }

    /// What the settled listing says, or why there is none.
    pub fn settled_pull_requests(
        ran: &Ran,
        status: &str,
        parsed: Result<Vec<GhSettled>, String>,
    ) -> (answer: Result<SettledPullRequests, String>)
        ensures
            shapes::outcome(answer) == match *ran {
                Err(error) => Err::<SettledPullRequestsView, _>("gh could not be run: "@ + error@),
                Ok(output) => settled_answer_of(
                    output.code,
                    git_cli::lossy(output.stderr@),
                    status@,
                    parsed,
                ),
            },
    {
        match ran {
            Ok(output) => settled_answer(output.code, output.stderr.as_slice(), status, parsed),
            Err(error) => {
                let mut words = "gh could not be run: ".to_owned();
                words.append(error.as_str());
                Err(words)
            },
        }
    }
}

// ---------------------------------------------------------------- laws

/// The rows are read one by one and in their order: a merged or closed pull request keeps its
/// number, its branch and whether it is from a fork, and one in another state is left out.
pub proof fn law_settled_rows_are_read_in_order(
    first: Seq<GhSettled>,
    second: Seq<GhSettled>,
    row: GhSettled,
)
    ensures
        settled_rows(first + second) == settled_rows(first) + settled_rows(second),
        row.state == GhState::Merged ==> settled_rows(seq![row]) == seq![
            SettledPullRequestView {
                number: row.number,
                head_ref: row.head_ref_name@,
                from_a_fork: row.is_cross_repository,
                outcome: PullRequestOutcome::Merged,
            },
        ],
        row.state == GhState::Closed ==> settled_rows(seq![row]) == seq![
            SettledPullRequestView {
                number: row.number,
                head_ref: row.head_ref_name@,
                from_a_fork: row.is_cross_repository,
                outcome: PullRequestOutcome::Closed,
            },
        ],
        row.state == GhState::Other ==> settled_rows(seq![row]).len() == 0,
{
    lemma_settled_rows_joined(first, second);
    assert(seq![row].drop_last() =~= seq![]);
    assert(settled_rows(seq![row].drop_last()) == Seq::<SettledPullRequestView>::empty());
    assert(seq![row].last() == row);
}

proof fn lemma_settled_rows_joined(first: Seq<GhSettled>, second: Seq<GhSettled>)
    ensures
        settled_rows(first + second) == settled_rows(first) + settled_rows(second),
    decreases second.len(),
{
    let both = first + second;
    if second.len() == 0 {
        assert(both =~= first);
    } else {
        lemma_settled_rows_joined(first, second.drop_last());
        assert(both.drop_last() =~= first + second.drop_last());
        assert(both.last() == second.last());
    }
}

/// An answer is taken for the whole exactly where fewer rows came than were asked for and each has
/// a state that is known; and the list is the same either way.
pub proof fn law_whole_is_less_than_was_asked_for(rows: Seq<GhSettled>, limit: nat)
    ensures
        settled_of_rows(rows, limit) is All <==> rows.len() < limit && forall|i: int|
            0 <= i < rows.len() ==> (#[trigger] rows[i]).state == GhState::Merged || rows[i].state
                == GhState::Closed,
        match settled_of_rows(rows, limit) {
            SettledPullRequestsView::All(list) => list == settled_rows(rows) && list.len()
                == rows.len(),
            SettledPullRequestsView::Window(list) => list == settled_rows(rows),
        },
{
    if forall|i: int| 0 <= i < rows.len() ==> (#[trigger] rows[i]).state != GhState::Other {
        lemma_known_rows_stay(rows);
    }
    assert forall|i: int| 0 <= i < rows.len() implies ((#[trigger] rows[i]).state
        != GhState::Other <==> rows[i].state == GhState::Merged || rows[i].state
        == GhState::Closed) by {}
}

proof fn lemma_known_rows_stay(rows: Seq<GhSettled>)
    requires
        forall|i: int| 0 <= i < rows.len() ==> (#[trigger] rows[i]).state != GhState::Other,
    ensures
        settled_rows(rows).len() == rows.len(),
    decreases rows.len(),
{
    if rows.len() > 0 {
        let less = rows.drop_last();
        assert forall|i: int| 0 <= i < less.len() implies (#[trigger] less[i]).state
            != GhState::Other by {
            assert(less[i] == rows[i]);
        }
        lemma_known_rows_stay(less);
        assert(rows.last() == rows[rows.len() - 1]);
    }
}

/// Three hundred are asked for, of the repository that is meant, and three hundred that came are
/// not taken for the whole.
pub proof fn law_asked_for_what_is_counted(
    slug: Seq<char>,
    rows: Vec<GhSettled>,
    stderr: Seq<char>,
    status: Seq<char>,
)
    ensures
        settled_arguments_of(slug) == seq![
            "pr"@,
            "list"@,
            "-R"@,
            slug,
            "--state"@,
            "closed"@,
            "--limit"@,
            "300"@,
            "--json"@,
            "number,headRefName,isCrossRepository,state"@,
        ],
        settled_answer_of(Some(0i32), stderr, status, Ok(rows)) matches Ok(answer) && (rows@.len()
            >= 300 ==> answer is Window),
{
    lemma_limit_in_digits();
}

proof fn lemma_limit_in_digits()
    ensures
        text::decimal(SETTLED_LIMIT as nat) == "300"@,
{
    reveal_strlit("300");
    reveal_with_fuel(text::decimal, 4);
    assert(text::decimal(300) =~= seq!['3', '0', '0']);
    assert("300"@ =~= seq!['3', '0', '0']);
}

/// The open pull requests are those of the rows, one for one and in their order.
pub proof fn law_open_rows_are_read_in_order(rows: Seq<GhPullRequest>, i: int)
    requires
        0 <= i < rows.len(),
    ensures
        open_rows(rows).len() == rows.len(),
        open_rows(rows)[i].number == rows[i].number,
        open_rows(rows)[i].title == rows[i].title@,
        open_rows(rows)[i].head_ref == rows[i].head_ref_name@,
        open_rows(rows)[i].is_draft == rows[i].is_draft,
{
}

/// What is told of several lines is the first that says anything, without the white space round
/// it; and nothing is told only where none says anything.
pub proof fn law_first_that_says_anything_is_told(all: Seq<Seq<char>>)
    ensures
        match first_said(all) {
            Some(words) => exists|i: int|
                0 <= i < all.len() && words == text::trim(#[trigger] all[i]) && words.len() > 0
                    && forall|j: int| 0 <= j < i ==> text::trim(#[trigger] all[j]).len() == 0,
            None => forall|j: int| 0 <= j < all.len() ==> text::trim(#[trigger] all[j]).len() == 0,
        },
    decreases all.len(),
{
    if all.len() > 0 {
        let rest = all.skip(1);
        law_first_that_says_anything_is_told(rest);
        if text::trim(all[0]).len() > 0 {
            assert(first_said(all) == Some(text::trim(all[0])));
        } else {
            assert(first_said(all) == first_said(rest));
            match first_said(rest) {
                Some(words) => {
                    let i = choose|i: int|
                        0 <= i < rest.len() && words == text::trim(#[trigger] rest[i])
                            && words.len() > 0 && forall|j: int|
                            0 <= j < i ==> text::trim(#[trigger] rest[j]).len() == 0;
                    assert(all[i + 1] == rest[i]);
                    assert forall|j: int| 0 <= j < i + 1 implies text::trim(
                        #[trigger] all[j],
                    ).len() == 0 by {
                        if j > 0 {
                            assert(all[j] == rest[j - 1]);
                        }
                    }
                },
                None => {
                    assert forall|j: int| 0 <= j < all.len() implies text::trim(
                        #[trigger] all[j],
                    ).len() == 0 by {
                        if j > 0 {
                            assert(all[j] == rest[j - 1]);
                        }
                    }
                },
            }
        }
    }
}

/// The rows count only where gh ended well. Otherwise its answer is a refusal, in its own first
/// words where it said any, and else by how it ended.
pub proof fn law_only_a_good_end_is_an_answer(
    code: Option<i32>,
    stderr: Seq<char>,
    status: Seq<char>,
    parsed: Result<Vec<GhSettled>, String>,
)
    ensures
        settled_answer_of(code, stderr, status, parsed) is Ok <==> code == Some(0i32)
            && parsed is Ok,
        code == Some(0i32) && parsed is Err ==> settled_answer_of(code, stderr, status, parsed)
            == Err::<SettledPullRequestsView, _>(
            "gh answered in a shape this does not know: "@ + parsed->Err_0@,
        ),
        code != Some(0i32) ==> settled_answer_of(code, stderr, status, parsed) == Err::<
            SettledPullRequestsView,
            _,
        >(
            match first_said(text::lines(stderr)) {
                Some(reason) => "gh refused the question this asked: "@ + reason,
                None => "gh would not answer ("@ + status + ")"@,
            },
        ),
{
}

} // verus!
