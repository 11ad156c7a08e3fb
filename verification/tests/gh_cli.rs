//! What GitHub's command line is asked, and how its answers are read.

use herdr_worktree_nav::gh_cli;
use herdr_worktree_nav::gh_cli::{
    open_command, settled_arguments, settled_command, GhCli, GhPullRequest, GhSettled, GhState,
    SETTLED_LIMIT,
};
use herdr_worktree_nav::port::{
    Output, PullRequest, PullRequestOutcome, SettledPullRequest, SettledPullRequests, Slug,
};
use serde_json::Value;

fn rows(stdout: &[u8]) -> Result<Vec<Value>, String> {
    match serde_json::from_slice(stdout) {
        Ok(Value::Array(rows)) => Ok(rows),
        Ok(_) => Err("not a list".to_string()),
        Err(error) => Err(error.to_string()),
    }
}

fn text(row: &Value, key: &str) -> Result<String, String> {
    match row.get(key).and_then(Value::as_str) {
        Some(text) => Ok(text.to_string()),
        None => Err(format!("no {key}")),
    }
}

fn flag(row: &Value, key: &str) -> Result<bool, String> {
    row.get(key).and_then(Value::as_bool).ok_or(format!("no {key}"))
}

fn number(row: &Value) -> Result<u64, String> {
    row.get("number").and_then(Value::as_u64).ok_or("no number".to_string())
}

fn settled_row(row: &Value) -> Result<GhSettled, String> {
    Ok(GhSettled {
        number: number(row)?,
        head_ref_name: text(row, "headRefName")?,
        is_cross_repository: flag(row, "isCrossRepository")?,
        state: match text(row, "state")?.as_str() {
            "MERGED" => GhState::Merged,
            "CLOSED" => GhState::Closed,
            _ => GhState::Other,
        },
    })
}

fn open_row(row: &Value) -> Result<GhPullRequest, String> {
    Ok(GhPullRequest {
        number: number(row)?,
        title: text(row, "title")?,
        head_ref_name: text(row, "headRefName")?,
        is_draft: flag(row, "isDraft")?,
    })
}

fn settled_rows(stdout: &[u8]) -> Result<Vec<GhSettled>, String> {
    rows(stdout)?.iter().map(settled_row).collect()
}

fn open_rows(stdout: &[u8]) -> Result<Vec<GhPullRequest>, String> {
    rows(stdout)?.iter().map(open_row).collect()
}

fn read_settled(stdout: &[u8], limit: usize) -> Result<SettledPullRequests, String> {
    gh_cli::read_settled(settled_rows(stdout), limit)
}

fn open_answer(output: &Output) -> Vec<PullRequest> {
    gh_cli::open_answer(output.code, open_rows(&output.stdout))
}

fn settled_answer(output: &Output) -> Result<SettledPullRequests, String> {
    let status = format!("exit status: {}", output.code.unwrap_or_default());
    gh_cli::settled_answer(output.code, &output.stderr, &status, settled_rows(&output.stdout))
}

fn slug() -> Slug {
    Slug::owner_repo("me", "app").expect("two names GitHub would know")
}

fn ran(code: i32, stdout: &str, stderr: &str) -> Output {
    Output {
        code: Some(code),
        stdout: stdout.as_bytes().to_vec(),
        stderr: stderr.as_bytes().to_vec(),
    }
}

#[test]
fn the_repository_is_named_rather_than_guessed_from_the_remotes() {
    let arguments = settled_arguments(&slug());
    assert!(
        arguments.windows(2).any(|pair| pair == ["-R", "me/app"]),
        "the repository is named, not guessed from the remotes: {arguments:?}"
    );
    assert_eq!(
        arguments,
        [
            "pr",
            "list",
            "-R",
            "me/app",
            "--state",
            "closed",
            "--limit",
            "300",
            "--json",
            "number,headRefName,isCrossRepository,state",
        ]
    );
}

#[test]
fn what_is_actually_started_is_gh_with_the_arguments_above() {
    let command = settled_command(&slug());
    assert_eq!(command.program, "gh");
    assert_eq!(
        command.args,
        settled_arguments(&slug()),
        "the arguments this asks for are the arguments it is started with"
    );
}

#[test]
fn the_decoration_query_names_the_repository_too() {
    let command = open_command(&slug());
    assert_eq!(command.program, "gh");
    let arguments = command.args.clone();
    assert!(
        arguments.windows(2).any(|pair| pair == ["-R", "me/app"]),
        "the repository is named, not guessed from the remotes: {arguments:?}"
    );
    assert!(
        arguments.windows(2).any(|pair| pair == ["--state", "open"]),
        "and this is the half in flight, not the half the sweep asks about"
    );
    assert_eq!(
        arguments,
        [
            "-R",
            "me/app",
            "pr",
            "list",
            "--state",
            "open",
            "--limit",
            "100",
            "--json",
            "number,title,headRefName,isDraft",
        ]
    );
}

#[test]
fn the_window_asked_for_is_the_window_truncation_is_measured_against() {
    let arguments = settled_arguments(&slug());
    let asked_for = arguments
        .iter()
        .position(|argument| argument == "--limit")
        .map(|at| arguments[at + 1].as_str());
    assert_eq!(asked_for, Some(SETTLED_LIMIT.to_string().as_str()));
}

#[test]
fn closed_is_asked_for_rather_than_everything() {
    let arguments = settled_arguments(&slug());
    let state = arguments
        .iter()
        .position(|argument| argument == "--state")
        .map(|at| arguments[at + 1].as_str());
    assert_eq!(state, Some("closed"));
}

fn one(number: u64, head_ref: &str, state: &str, cross: bool) -> String {
    format!(
        r#"{{"number":{number},"headRefName":"{head_ref}","isCrossRepository":{cross},"state":"{state}"}}"#
    )
}

fn json(entries: &[String]) -> Vec<u8> {
    format!("[{}]", entries.join(",")).into_bytes()
}

fn listed(read: &SettledPullRequests) -> &[SettledPullRequest] {
    match read {
        SettledPullRequests::All(list) | SettledPullRequests::Window(list) => list,
    }
}

#[test]
fn both_settled_states_come_through_as_themselves() {
    let read = read_settled(
        &json(&[
            one(1, "feat/login", "MERGED", false),
            one(2, "fix/crash", "CLOSED", false),
        ]),
        300,
    )
    .unwrap();
    assert_eq!(
        listed(&read),
        [
            SettledPullRequest {
                number: 1,
                head_ref: "feat/login".into(),
                from_a_fork: false,
                outcome: PullRequestOutcome::Merged,
            },
            SettledPullRequest {
                number: 2,
                head_ref: "fix/crash".into(),
                from_a_fork: false,
                outcome: PullRequestOutcome::Closed,
            },
        ]
    );
    assert!(
        matches!(read, SettledPullRequests::All(_)),
        "two of a window of three hundred, so this is all of them"
    );
}

#[test]
fn a_branch_on_somebody_elses_fork_says_so() {
    let read = read_settled(&json(&[one(1, "patch-1", "MERGED", true)]), 300).unwrap();
    assert!(listed(&read)[0].from_a_fork);
    assert_eq!(
        listed(&read)[0].head_ref,
        "patch-1",
        "and the name is the fork's, which is the whole reason it must be told apart"
    );
}

#[test]
fn a_full_window_is_not_reported_as_the_whole_answer() {
    let entries: Vec<String> = (0..3)
        .map(|n| one(n, &format!("feat/{n}"), "MERGED", false))
        .collect();
    assert!(matches!(
        read_settled(&json(&entries), 3).unwrap(),
        SettledPullRequests::Window(_)
    ));
    assert!(matches!(
        read_settled(&json(&entries), 4).unwrap(),
        SettledPullRequests::All(_)
    ));
}

#[test]
fn a_state_this_does_not_know_is_dropped_and_admitted_to() {
    let read = read_settled(
        &json(&[
            one(1, "feat/login", "MERGED", false),
            one(2, "feat/next", "SOMETHING_NEWER", false),
        ]),
        300,
    )
    .unwrap();
    assert_eq!(listed(&read).len(), 1, "the unknown one is not guessed at");
    assert!(
        matches!(read, SettledPullRequests::Window(_)),
        "and its absence is not passed off as an answer"
    );
}

#[test]
fn output_this_cannot_read_is_not_an_empty_answer() {
    assert!(read_settled(b"not json at all", 300).is_err());
    assert!(
        listed(&read_settled(b"[]", 300).unwrap()).is_empty(),
        "but an empty list is one"
    );
}

#[test]
fn the_decoration_reads_every_field_it_asked_for() {
    let listed = open_answer(&ran(
        0,
        r#"[{"number":7,"title":"Add a sweep","headRefName":"feat/sweep","isDraft":true}]"#,
        "",
    ));
    assert_eq!(listed.len(), 1);
    assert_eq!(listed[0].number, 7);
    assert_eq!(listed[0].title, "Add a sweep");
    assert_eq!(listed[0].head_ref, "feat/sweep");
    assert!(
        listed[0].is_draft,
        "the flag the row draws its dimming from"
    );
}

#[test]
fn a_gh_that_refused_costs_the_decoration_and_nothing_else() {
    assert!(
        open_answer(&ran(
            1,
            r#"[{"number":7,"title":"t","headRefName":"b","isDraft":false}]"#,
            ""
        ))
        .is_empty(),
        "a gh that exited non-zero has not answered, whatever is on its stdout"
    );
    assert!(
        open_answer(&ran(0, "not json at all", "")).is_empty(),
        "and output this cannot read is the same cost"
    );
}

#[test]
fn a_gh_that_refused_is_not_read_as_an_answer() {
    let refused = settled_answer(&ran(1, "[]", "could not resolve to a Repository\n"));
    assert!(refused.is_err(), "an exit code is not a shape of answer");
    assert!(
        settled_answer(&ran(0, "[]", "")).is_ok(),
        "and an empty answer from a gh that succeeded still is one"
    );
}

#[test]
fn gh_is_quoted_rather_than_blamed() {
    let said = settled_answer(&ran(1, "", "unknown flag: --stat\n")).unwrap_err();
    assert!(
        said.contains("unknown flag: --stat"),
        "gh's own words are the only thing that says which half went wrong: {said}"
    );
    assert!(
        !said.starts_with("gh:"),
        "and the two bugs this call has had were on this side, not gh's: {said}"
    );
}

#[test]
fn the_reason_is_found_past_the_blank_lines_and_no_further() {
    let said = settled_answer(&ran(1, "", "\n  \nGraphQL: Could not resolve\n")).unwrap_err();
    assert!(
        said.contains("Could not resolve"),
        "the first line with anything on it, not the first line: {said}"
    );

    let notice = settled_answer(&ran(
        1,
        "",
        "A new release of gh is available\nGraphQL: Could not resolve\n",
    ))
    .unwrap_err();
    assert!(
        notice.contains("A new release of gh is available"),
        "and it goes no further than blank, which this says rather than hides: {notice}"
    );
}

#[test]
fn a_gh_that_said_nothing_still_says_which_gh_it_was() {
    let said = settled_answer(&ran(2, "", "   \n\n")).unwrap_err();
    assert!(
        said.contains("gh would not answer"),
        "an empty stderr is not a reason to show an empty sentence: {said}"
    );
}

#[test]
fn the_window_gh_was_asked_for_is_the_one_a_full_answer_is_measured_against() {
    let full: String = (1..=SETTLED_LIMIT)
        .map(|number| {
            format!(r#"{{"number":{number},"headRefName":"b{number}","isCrossRepository":false,"state":"MERGED"}}"#)
        })
        .collect::<Vec<_>>()
        .join(",");
    let answer = settled_answer(&ran(0, &format!("[{full}]"), "")).unwrap();
    assert!(
        matches!(answer, SettledPullRequests::Window(_)),
        "as many as were asked for is the only evidence gh gives that there may be more"
    );

    let one_short = full[..full.rfind(",{").expect("more than one")].to_string();
    let answer = settled_answer(&ran(0, &format!("[{one_short}]"), "")).unwrap();
    assert!(
        matches!(answer, SettledPullRequests::All(_)),
        "one fewer than the window is gh saying it reached the end"
    );
}

#[test]
fn a_gh_that_could_not_be_started_says_so_to_a_sweep_and_costs_the_decoration() {
    let ran = Err("no such file or directory".to_string());
    assert_eq!(
        GhCli::settled_pull_requests(&ran, "", Ok(Vec::new())),
        Err("gh could not be run: no such file or directory".to_string())
    );
    assert!(GhCli::pull_requests(&ran, Ok(Vec::new())).is_empty());
}

#[test]
fn words_of_gh_that_are_not_text_are_quoted_all_the_same() {
    let output = Output { code: Some(1), stdout: Vec::new(), stderr: b"\n no \xff\n".to_vec() };
    assert_eq!(
        GhCli::settled_pull_requests(&Ok(output), "exit status: 1", Ok(Vec::new())),
        Err("gh refused the question this asked: no \u{fffd}".to_string())
    );
}
