//! Asking git: what its command line is given, and what its answers say.

use vstd::prelude::*;
use vstd::slice::slice_subrange;

use crate::port::{
    GitRef, GitRefView, Invocation, InvocationView, Output, OutputView, RefKind, RefWalk,
    RefWalkView, RepoIdentity, RepoIdentityView, Slug, Track,
};
use crate::shapes;
use crate::text;
use crate::text::{
    after_prefix, before_suffix, chars_of, cut, find_chars, holds, joined, lines_of, read_number,
    read_signed, spells, split_by, split_chars, starts, text_of, trimmed, trimmed_text,
    without_end_char, without_end_text,
};

verus! {

/// The code that git leaves with when it gives up.
pub const GIT_FATAL: i32 = 128;

/// The variable, and its value, that make git speak the words that are read here.
pub open spec fn git_locale() -> (Seq<char>, Seq<char>) {
    ("LC_ALL"@, "C"@)
}

/// What bytes that may not be UTF-8 are read as.
pub uninterp spec fn lossy(bytes: Seq<u8>) -> Seq<char>;

/// `String::from_utf8_lossy`: a text that depends on the bytes alone, and their own text where
/// they are UTF-8. What stands for bytes that are not UTF-8 is left to the name.
#[verifier::external_body]
pub(crate) fn lossy_text(bytes: &[u8]) -> (text: String)
    ensures
        text@ == lossy(bytes@),
        vstd::utf8::valid_utf8(bytes@) ==> text@ == vstd::utf8::decode_utf8(bytes@),
{
    String::from_utf8_lossy(bytes).into_owned()
}

/// What each of a list of words spells.
pub open spec fn spelled(v: Seq<&str>) -> Seq<Seq<char>> {
    Seq::new(v.len(), |i: int| v[i]@)
}

/// The words as strings of their own.
pub fn owned(words: &[&str]) -> (out: Vec<String>)
    ensures
        text::texts(out@) == spelled(words@),
{
    let mut out: Vec<String> = Vec::new();
    let mut i: usize = 0;
    while i < words.len()
        invariant
            i <= words@.len(),
            text::texts(out@) == spelled(words@).take(i as int),
        decreases words@.len() - i,
    {
        let ghost was = text::texts(out@);
        out.push(words[i].to_owned());
        assert(text::texts(out@) =~= was.push(words@[i as int]@));
        assert(spelled(words@).take(i + 1) =~= was.push(words@[i as int]@));
        i = i + 1;
    }
    assert(spelled(words@).take(i as int) =~= spelled(words@));
    out
}

/// What git said: both of its outputs as text.
pub struct Said {
    pub stdout: String,
    pub stderr: String,
}

#[verifier::ext_equal]
pub struct SaidView {
    pub stdout: Seq<char>,
    pub stderr: Seq<char>,
}

impl View for Said {
    type V = SaidView;

    open spec fn view(&self) -> SaidView {
        SaidView { stdout: self.stdout@, stderr: self.stderr@ }
    }
}

// ---------------------------------------------------------------- words

/// The words of a refusal: what git said, or that it said nothing, and the call behind it.
pub open spec fn refusal_words(args: Seq<Seq<char>>, stderr: Seq<char>) -> Seq<char> {
    let said = text::trim(stderr);
    let first = if said.len() == 0 {
        "git said nothing"@
    } else {
        said
    };
    first + " (`git "@ + text::join(args, " "@) + "`)"@
}

/// The words of a refusal.
pub fn refusal(args: &[&str], stderr: &str) -> (words: String)
    ensures
        words@ == refusal_words(spelled(args@), stderr@),
{
    refusal_with(&owned(args), stderr)
}

fn refusal_with(args: &Vec<String>, stderr: &str) -> (words: String)
    ensures
        words@ == refusal_words(text::texts(args@), stderr@),
{
    let mut words = trimmed_text(stderr);
    if words.as_str().is_empty() {
        words = "git said nothing".to_owned();
    }
    words.append(" (`git ");
    words.append(joined(args, " ").as_str());
    words.append("`)");
    words
}

/// The words for a git that could not be started.
pub open spec fn could_not_run_words(args: Seq<Seq<char>>, error: Seq<char>) -> Seq<char> {
    refusal_words(args, "git could not be run: "@ + error)
}

/// The words for a git that could not be started, in the same order as those of a refusal.
pub fn could_not_run(args: &[&str], error: &str) -> (words: String)
    ensures
        words@ == could_not_run_words(spelled(args@), error@),
{
    let mut said = "git could not be run: ".to_owned();
    said.append(error);
    refusal(args, said.as_str())
}

/// The trimmed lines that start with one of `openings`.
pub open spec fn warnings(all: Seq<Seq<char>>, openings: Seq<Seq<char>>) -> Seq<Seq<char>>
    decreases all.len(),
{
    if all.len() == 0 {
        seq![]
    } else {
        let line = text::trim(all.last());
        let so_far = warnings(all.drop_last(), openings);
        if exists|i: int| 0 <= i < openings.len() && #[trigger] openings[i].is_prefix_of(line) {
            so_far.push(line)
        } else {
            so_far
        }
    }
}

/// The lines that start with one of `openings`, one behind the other; nothing where none does.
pub open spec fn warned(stderr: Seq<char>, openings: Seq<Seq<char>>) -> Option<Seq<char>> {
    let kept = warnings(text::lines(stderr), openings);
    if kept.len() == 0 {
        None
    } else {
        Some(text::join(kept, " "@))
    }
}

fn opens_with(line: &[char], openings: &[&str]) -> (does: bool)
    ensures
        does == exists|i: int|
            0 <= i < spelled(openings@).len() && #[trigger] spelled(openings@)[i].is_prefix_of(
                line@,
            ),
{
    let mut i: usize = 0;
    while i < openings.len()
        invariant
            i <= openings@.len(),
            forall|j: int| 0 <= j < i ==> !(#[trigger] spelled(openings@)[j]).is_prefix_of(line@),
        decreases openings@.len() - i,
    {
        if starts(line, openings[i]) {
            assert(spelled(openings@)[i as int].is_prefix_of(line@));
            return true;
        }
        i = i + 1;
    }
    false
}

fn warned_of(stderr: &str, openings: &[&str]) -> (words: Option<String>)
    ensures
        shapes::opt(words) == warned(stderr@, spelled(openings@)),
{
    let cs = chars_of(stderr);
    let all = lines_of(cs.as_slice());
    let mut kept: Vec<String> = Vec::new();
    let mut i: usize = 0;
    while i < all.len()
        invariant
            i <= all@.len(),
            text::texts(kept@) == warnings(text::pieces(all@).take(i as int), spelled(openings@)),
        decreases all@.len() - i,
    {
        let line = trimmed(all[i]);
        proof {
            let every = text::pieces(all@);
            assert(every.take(i + 1).drop_last() =~= every.take(i as int));
            assert(every.take(i + 1).last() == all@[i as int]@);
        }
        let ghost before = text::texts(kept@);
        if opens_with(line, openings) {
            kept.push(text_of(line));
            assert(text::texts(kept@) =~= before.push(line@));
        }
        i = i + 1;
    }
    assert(text::pieces(all@).take(i as int) =~= text::pieces(all@));
    if kept.len() == 0 {
        None
    } else {
        Some(joined(&kept, " "))
    }
}

/// The openings of the lines that git leaves a ref out with.
pub open spec fn dropped_openings() -> Seq<Seq<char>> {
    seq!["warning: ignoring broken ref "@, "warning: ignoring ref with broken name "@]
}

/// What git said of the refs it left out of a walk.
pub fn dropped_refs(stderr: &str) -> (words: Option<String>)
    ensures
        shapes::opt(words) == warned(stderr@, dropped_openings()),
{
    let openings = [
        "warning: ignoring broken ref ",
        "warning: ignoring ref with broken name ",
    ];
    assert(spelled(openings@) =~= dropped_openings());
    warned_of(stderr, openings.as_slice())
}

/// The opening of the lines that git leaves a directory out with.
pub open spec fn unread_openings() -> Seq<Seq<char>> {
    seq!["warning: could not open directory "@]
}

/// What git said of the directories it could not look into.
pub fn unread_paths(stderr: &str) -> (words: Option<String>)
    ensures
        shapes::opt(words) == warned(stderr@, unread_openings()),
{
    let openings = ["warning: could not open directory "];
    assert(spelled(openings@) =~= unread_openings());
    warned_of(stderr, openings.as_slice())
}

/// Whether git said that the repository has no such remote: by its code and by its words.
pub fn no_such_remote(code: Option<i32>, stderr: &str) -> (none: bool)
    ensures
        none == (code == Some(2i32) && text::contains(stderr@, "No such remote"@)),
{
    match code {
        Some(c) => c == 2 && holds(stderr, "No such remote"),
        None => false,
    }
}

// ---------------------------------------------------------------- tracks

/// The commits ahead and behind that the parts of a track field count, zero where a side is not
/// named; nothing where a part is not a side and a count.
pub open spec fn sides(parts: Seq<Seq<char>>) -> Option<(nat, nat)>
    decreases parts.len(),
{
    if parts.len() == 0 {
        Some((0, 0))
    } else {
        match (sides(parts.drop_last()), text::split_once(parts.last(), ' ')) {
            (Some((ahead, behind)), Some((side, count))) => match text::number(count, u32::MAX as nat) {
                Some(n) => if side == "ahead"@ {
                    Some((n, behind))
                } else if side == "behind"@ {
                    Some((ahead, n))
                } else {
                    None
                },
                None => None,
            },
            _ => None,
        }
    }
}

/// The track that counts on the two sides make; none where both are zero.
pub open spec fn track_of_counts(ahead: nat, behind: nat) -> Option<Track> {
    if ahead > 0 && behind > 0 {
        Some(Track::Diverged { ahead: ahead as u32, behind: behind as u32 })
    } else if ahead > 0 {
        Some(Track::Ahead(ahead as u32))
    } else if behind > 0 {
        Some(Track::Behind(behind as u32))
    } else {
        None
    }
}

/// What stands between the brackets of a track field.
pub open spec fn bracketed(field: Seq<char>) -> Option<Seq<char>> {
    match text::strip_prefix(field, "["@) {
        Some(rest) => text::strip_suffix(rest, "]"@),
        None => None,
    }
}

/// What a track field of git says. An empty one says nothing, and so does one that counts
/// nothing; one that is neither empty nor understood is unreadable.
pub open spec fn track_field(field: Seq<char>) -> Option<Track> {
    let said = text::trim(field);
    if said.len() == 0 {
        None
    } else {
        match bracketed(said) {
            None => Some(Track::Unreadable),
            Some(inside) => if inside == "gone"@ {
                Some(Track::Gone)
            } else {
                match sides(text::split_text(inside, ", "@)) {
                    None => Some(Track::Unreadable),
                    Some((ahead, behind)) => track_of_counts(ahead, behind),
                }
            },
        }
    }
}

/// Where one part of a track field cannot be read, the field cannot.
proof fn lemma_sides_fail(parts: Seq<Seq<char>>, i: int)
    requires
        0 <= i <= parts.len(),
        sides(parts.take(i)) is None,
    ensures
        sides(parts) is None,
    decreases parts.len() - i,
{
    if i < parts.len() {
        assert(parts.take(i + 1).drop_last() =~= parts.take(i));
        lemma_sides_fail(parts, i + 1);
    } else {
        assert(parts.take(i) =~= parts);
    }
}

/// The counts of the two sides of a track field.
fn read_sides(inside: &[char]) -> (counts: Option<(u32, u32)>)
    ensures
        match counts {
            Some((a, b)) => sides(text::split_text(inside@, ", "@)) == Some((a as nat, b as nat)),
            None => sides(text::split_text(inside@, ", "@)) is None,
        },
{
    proof {
        reveal_strlit(", ");
    }
    let parts = split_by(inside, ", ");
    let ghost all = text::pieces(parts@);
    let mut ahead: u32 = 0;
    let mut behind: u32 = 0;
    let mut i: usize = 0;
    while i < parts.len()
        invariant
            i <= parts@.len(),
            all == text::pieces(parts@),
            all == text::split_text(inside@, ", "@),
            sides(all.take(i as int)) == Some((ahead as nat, behind as nat)),
        decreases parts@.len() - i,
    {
        proof {
            assert(all.take(i + 1).drop_last() =~= all.take(i as int));
            assert(all.take(i + 1).last() == parts@[i as int]@);
            if sides(all.take(i + 1)) is None {
                lemma_sides_fail(all, i + 1);
            }
        }
        match cut(parts[i], ' ') {
            None => {
                return None;
            },
            Some((side, count)) => match read_number(count, u32::MAX as u64) {
                None => {
                    return None;
                },
                Some(n) => {
                    if spells(side, "ahead") {
                        ahead = n as u32;
                    } else if spells(side, "behind") {
                        behind = n as u32;
                    } else {
                        return None;
                    }
                },
            },
        }
        i = i + 1;
    }
    assert(all.take(i as int) =~= all);
    Some((ahead, behind))
}

fn track_chars(field: &[char]) -> (track: Option<Track>)
    ensures
        track == track_field(field@),
        track matches Some(t) ==> t.counts(),
{
    let said = trimmed(field);
    if said.len() == 0 {
        return None;
    }
    let inside = match after_prefix(said, "[") {
        None => {
            return Some(Track::Unreadable);
        },
        Some(rest) => match before_suffix(rest, "]") {
            None => {
                return Some(Track::Unreadable);
            },
            Some(inside) => inside,
        },
    };
    if spells(inside, "gone") {
        return Some(Track::Gone);
    }
    match read_sides(inside) {
        None => Some(Track::Unreadable),
        Some((ahead, behind)) => if ahead > 0 && behind > 0 {
            Some(Track::Diverged { ahead, behind })
        } else if ahead > 0 {
            Some(Track::Ahead(ahead))
        } else if behind > 0 {
            Some(Track::Behind(behind))
        } else {
            None
        },
    }
}

/// What a track field of git says.
pub fn parse_track(field: &str) -> (track: Option<Track>)
    ensures
        track == track_field(field@),
        track matches Some(t) ==> t.counts(),
{
    let cs = chars_of(field);
    track_chars(cs.as_slice())
}

/// How a branch stands: what the field of its upstream says; where that says nothing and no
/// upstream is named, what the field of its push destination says, unless it says that is gone.
pub open spec fn branch_track(
    has_upstream: bool,
    upstream_track: Seq<char>,
    push_track: Seq<char>,
) -> Option<Track> {
    match track_field(upstream_track) {
        Some(track) => Some(track),
        None => if has_upstream {
            None
        } else {
            match track_field(push_track) {
                Some(Track::Gone) => None,
                track => track,
            }
        },
    }
}

fn track_of_fields(has_upstream: bool, upstream_track: &[char], push_track: &[char]) -> (track:
    Option<Track>)
    ensures
        track == branch_track(has_upstream, upstream_track@, push_track@),
        track matches Some(t) ==> t.counts(),
{
    match track_chars(upstream_track) {
        Some(track) => Some(track),
        None => if has_upstream {
            None
        } else {
            match track_chars(push_track) {
                Some(Track::Gone) => None,
                track => track,
            }
        },
    }
}

/// How a branch stands, from the name of its upstream and the two track fields.
pub fn read_track(upstream: Option<&str>, upstream_track: &str, push_track: &str) -> (track: Option<
    Track,
>)
    ensures
        track == branch_track(upstream is Some, upstream_track@, push_track@),
        track matches Some(t) ==> t.counts(),
{
    let u = chars_of(upstream_track);
    let p = chars_of(push_track);
    track_of_fields(upstream.is_some(), u.as_slice(), p.as_slice())
}

proof fn lemma_sides_fit(parts: Seq<Seq<char>>)
    ensures
        sides(parts) matches Some((ahead, behind)) ==> ahead <= u32::MAX && behind <= u32::MAX,
    decreases parts.len(),
{
    if parts.len() > 0 {
        lemma_sides_fit(parts.drop_last());
    }
}

/// Whatever git says of a branch, no count in its track is zero.
pub proof fn law_every_count_is_above_zero(
    has_upstream: bool,
    upstream_track: Seq<char>,
    push_track: Seq<char>,
)
    ensures
        track_field(upstream_track) matches Some(track) ==> track.counts(),
        branch_track(has_upstream, upstream_track, push_track) matches Some(track)
            ==> track.counts(),
{
    lemma_field_counts(upstream_track);
    lemma_field_counts(push_track);
}

proof fn lemma_field_counts(field: Seq<char>)
    ensures
        track_field(field) matches Some(track) ==> track.counts(),
{
    match bracketed(text::trim(field)) {
        Some(inside) => {
            lemma_sides_fit(text::split_text(inside, ", "@));
        },
        None => {},
    }
}

/// A branch that git named an upstream for is never read from its push side.
pub proof fn law_push_side_only_without_upstream(
    upstream_track: Seq<char>,
    push_track: Seq<char>,
    other_push_track: Seq<char>,
)
    ensures
        branch_track(true, upstream_track, push_track) == branch_track(
            true,
            upstream_track,
            other_push_track,
        ),
        branch_track(true, upstream_track, push_track) == track_field(upstream_track),
{
}

/// Only the upstream side can say that what a branch is compared with is gone.
pub proof fn law_push_side_is_never_gone(
    has_upstream: bool,
    upstream_track: Seq<char>,
    push_track: Seq<char>,
)
    ensures
        branch_track(has_upstream, upstream_track, push_track) == Some(Track::Gone) ==> track_field(
            upstream_track,
        ) == Some(Track::Gone),
{
}

// ---------------------------------------------------------------- slugs

/// What stands behind GitHub's host in a URL, without the separators in front of it, the slashes
/// at its end and the `.git` before them.
pub open spec fn url_path(url: Seq<char>) -> Option<Seq<char>> {
    let said = text::trim(url);
    match text::find_text(said, "github.com"@) {
        None => None,
        Some(at) => {
            let rest = text::trim_front(said.skip(at + "github.com"@.len()), |c: char| c == ':' || c == '/');
            Some(text::trim_end_text(text::trim_end_char(rest, '/'), ".git"@))
        },
    }
}

/// The slug that a GitHub URL names.
pub open spec fn url_slug(url: Seq<char>) -> Option<Seq<char>> {
    match url_path(url) {
        None => None,
        Some(path) => match text::split_once(path, '/') {
            None => None,
            Some((owner, repo)) => crate::port::slug(owner, repo),
        },
    }
}

/// The slug that a remote's URL names, where its host is GitHub.
pub fn github_slug_from_url(url: &str) -> (slug: Option<Slug>)
    ensures
        shapes::opt(slug) == url_slug(url@),
{
    let cs = chars_of(url);
    let said = trimmed(cs.as_slice());
    let host = chars_of("github.com");
    let at = match find_chars(said, host.as_slice()) {
        None => {
            return None;
        },
        Some(at) => at,
    };
    let end: usize = said.len() - (said.len() - at - host.len());
    let whole = slice_subrange(said, end, said.len());
    assert(whole@ =~= said@.skip(at + "github.com"@.len()));
    let ghost drop = |c: char| c == ':' || c == '/';
    let mut rest = whole;
    while rest.len() > 0 && (rest[0] == ':' || rest[0] == '/')
        invariant
            drop == (|c: char| c == ':' || c == '/'),
            text::trim_front(rest@, drop) == text::trim_front(whole@, drop),
        decreases rest@.len(),
    {
        let ghost was = rest@;
        rest = slice_subrange(rest, 1, rest.len());
        assert(rest@ =~= was.skip(1));
    }
    proof {
        reveal_strlit(".git");
    }
    let path = without_end_text(without_end_char(rest, '/'), ".git");
    match cut(path, '/') {
        None => None,
        Some((owner, repo)) => {
            let o = text_of(owner);
            let r = text_of(repo);
            Slug::owner_repo(o.as_str(), r.as_str())
        },
    }
}

// ---------------------------------------------------------------- refs

/// A text, where it holds anything.
pub open spec fn nonempty(s: Seq<char>) -> Option<Seq<char>> {
    if s.len() == 0 {
        None
    } else {
        Some(s)
    }
}

fn nonempty_text(s: &[char]) -> (text: Option<String>)
    ensures
        shapes::opt(text) == nonempty(s@),
{
    if s.len() == 0 {
        None
    } else {
        Some(text_of(s))
    }
}

/// The field at place `i`, empty where the line holds fewer.
pub open spec fn field(fields: Seq<Seq<char>>, i: int) -> Seq<char> {
    if 0 <= i < fields.len() {
        fields[i]
    } else {
        seq![]
    }
}

fn field_at<'a>(fields: &Vec<&'a [char]>, i: usize, none: &'a [char]) -> (f: &'a [char])
    requires
        none@.len() == 0,
    ensures
        f@ == field(text::pieces(fields@), i as int),
{
    if i < fields.len() {
        fields[i]
    } else {
        assert(none@ =~= seq![]);
        none
    }
}

/// The name and the place of a ref that is a branch: of this repository, or of a remote. A
/// remote's `HEAD` is none.
pub open spec fn branch_of(refname: Seq<char>) -> Option<(Seq<char>, RefKind)> {
    match text::strip_prefix(refname, "refs/heads/"@) {
        Some(branch) => if branch.len() == 0 {
            None
        } else {
            Some((branch, RefKind::Local))
        },
        None => match text::strip_prefix(refname, "refs/remotes/"@) {
            None => None,
            Some(rest) => match text::split_once(rest, '/') {
                None => None,
                Some((_, branch)) => if branch == "HEAD"@ || branch.len() == 0 {
                    None
                } else {
                    Some((branch, RefKind::Remote))
                },
            },
        },
    }
}

fn read_branch<'a>(refname: &'a [char]) -> (branch: Option<(&'a [char], RefKind)>)
    ensures
        match branch {
            Some((name, kind)) => branch_of(refname@) == Some((name@, kind)),
            None => branch_of(refname@) is None,
        },
{
    match after_prefix(refname, "refs/heads/") {
        Some(branch) => if branch.len() == 0 {
            None
        } else {
            Some((branch, RefKind::Local))
        },
        None => match after_prefix(refname, "refs/remotes/") {
            None => None,
            Some(rest) => match cut(rest, '/') {
                None => None,
                Some((_, branch)) => if spells(branch, "HEAD") || branch.len() == 0 {
                    None
                } else {
                    Some((branch, RefKind::Remote))
                },
            },
        },
    }
}

/// A number as the type that dates are kept in.
pub open spec fn as_date(n: Option<int>) -> Option<i64> {
    match n {
        Some(v) => Some(v as i64),
        None => None,
    }
}

/// The ref that a line of seven fields names: its full name, its date, its upstream, the two track
/// fields, its checkout and its subject. A line with fewer than two fields names none, nor does
/// one whose ref is not a branch.
pub open spec fn ref_of_line(line: Seq<char>) -> Option<GitRefView> {
    let fields = text::split_at_most(line, '\t', 7);
    if fields.len() < 2 {
        None
    } else {
        match branch_of(fields[0]) {
            None => None,
            Some((name, kind)) => Some(
                GitRefView {
                    name,
                    kind,
                    committed_at: as_date(text::signed_number(fields[1])),
                    subject: nonempty(field(fields, 6)),
                    upstream: nonempty(field(fields, 2)),
                    track: branch_track(
                        field(fields, 2).len() > 0,
                        field(fields, 3),
                        field(fields, 4),
                    ),
                    worktree_path: nonempty(field(fields, 5)),
                },
            ),
        }
    }
}

/// The refs that the lines name, in their order.
pub open spec fn refs_of_lines(all: Seq<Seq<char>>) -> Seq<GitRefView>
    decreases all.len(),
{
    if all.len() == 0 {
        seq![]
    } else {
        let so_far = refs_of_lines(all.drop_last());
        match ref_of_line(all.last()) {
            Some(found) => so_far.push(found),
            None => so_far,
        }
    }
}

fn read_ref(line: &[char]) -> (found: Option<GitRef>)
    ensures
        shapes::opt(found) == ref_of_line(line@),
{
    let fields = split_chars(line, '\t', 7);
    if fields.len() < 2 {
        return None;
    }
    let none = slice_subrange(line, 0, 0);
    match read_branch(fields[0]) {
        None => None,
        Some((name, kind)) => {
            let upstream = field_at(&fields, 2, none);
            let track = track_of_fields(
                upstream.len() > 0,
                field_at(&fields, 3, none),
                field_at(&fields, 4, none),
            );
            let found = GitRef {
                name: text_of(name),
                kind,
                committed_at: read_signed(fields[1]),
                subject: nonempty_text(field_at(&fields, 6, none)),
                upstream: nonempty_text(upstream),
                track,
                worktree_path: nonempty_text(field_at(&fields, 5, none)),
            };
            assert(found.committed_at == as_date(text::signed_number(fields@[1]@)));
            Some(found)
        },
    }
}

/// The refs that git's listing names.
pub fn refs_in(stdout: &str) -> (refs: Vec<GitRef>)
    ensures
        shapes::views(refs@) == refs_of_lines(text::lines(stdout@)),
{
    let cs = chars_of(stdout);
    let all = lines_of(cs.as_slice());
    let mut refs: Vec<GitRef> = Vec::new();
    let mut i: usize = 0;
    while i < all.len()
        invariant
            i <= all@.len(),
            shapes::views(refs@) == refs_of_lines(text::pieces(all@).take(i as int)),
        decreases all@.len() - i,
    {
        proof {
            let every = text::pieces(all@);
            assert(every.take(i + 1).drop_last() =~= every.take(i as int));
            assert(every.take(i + 1).last() == all@[i as int]@);
        }
        match read_ref(all[i]) {
            Some(found) => {
                proof {
                    shapes::lemma_views_push(refs@, found);
                }
                refs.push(found);
            },
            None => {},
        }
        i = i + 1;
    }
    assert(text::pieces(all@).take(i as int) =~= text::pieces(all@));
    refs
}

/// The branch that a line of a remote's listing names.
pub open spec fn head_of_line(line: Seq<char>) -> Option<Seq<char>> {
    match text::split_once(line, '\t') {
        None => None,
        Some((_, name)) => text::strip_prefix(name, "refs/heads/"@),
    }
}

/// The branches that the lines of a remote's listing name, in their order.
pub open spec fn heads_of_lines(all: Seq<Seq<char>>) -> Seq<Seq<char>>
    decreases all.len(),
{
    if all.len() == 0 {
        seq![]
    } else {
        let so_far = heads_of_lines(all.drop_last());
        match head_of_line(all.last()) {
            Some(name) => so_far.push(name),
            None => so_far,
        }
    }
}

/// The branches that a remote's listing names.
pub fn heads_in(stdout: &str) -> (heads: Vec<String>)
    ensures
        text::texts(heads@) == heads_of_lines(text::lines(stdout@)),
{
    let cs = chars_of(stdout);
    let all = lines_of(cs.as_slice());
    let mut heads: Vec<String> = Vec::new();
    let mut i: usize = 0;
    while i < all.len()
        invariant
            i <= all@.len(),
            text::texts(heads@) == heads_of_lines(text::pieces(all@).take(i as int)),
        decreases all@.len() - i,
    {
        proof {
            let every = text::pieces(all@);
            assert(every.take(i + 1).drop_last() =~= every.take(i as int));
            assert(every.take(i + 1).last() == all@[i as int]@);
        }
        let ghost before = text::texts(heads@);
        match cut(all[i], '\t') {
            Some((_, name)) => match after_prefix(name, "refs/heads/") {
                Some(branch) => {
                    heads.push(text_of(branch));
                    assert(text::texts(heads@) =~= before.push(branch@));
                },
                None => {},
            },
            None => {},
        }
        i = i + 1;
    }
    assert(text::pieces(all@).take(i as int) =~= text::pieces(all@));
    heads
}

// ---------------------------------------------------------------- calls

/// One question to git, or one thing it is told to do.
pub enum GitCall {
    /// Where the repository's own directory and the checkout are.
    Paths,
    /// The branch that is checked out.
    Branch,
    /// The commit that is checked out.
    Commit,
    /// The URL of the remote.
    Origin,
    /// Every branch, here and on the remotes as last fetched.
    Refs,
    /// The branches that the remote has now.
    RemoteHeads,
    /// Fetch one branch of the remote, whatever the configured refspecs say.
    FetchBranch(String),
    /// Fetch every branch of the remote, and forget those it no longer has.
    FetchAll,
    /// Remove a checkout, where it holds nothing uncommitted.
    RemoveWorktree(String),
    /// Delete a branch, where nothing is lost with it.
    DeleteBranch(String),
    /// What in the checkout is not committed, untracked files one by one.
    Status,
}

/// The format of the listing of refs.
pub open spec fn ref_format() -> Seq<char> {
    "--format=%(refname)%09%(committerdate:unix)%09%(upstream:short)%09%(upstream:track)%09%(push:track)%09%(worktreepath)%09%(contents:subject)"@
}

/// The arguments that fetch one branch into the remote's branch of the same name.
pub open spec fn fetch_branch_arguments(branch: Seq<char>) -> Seq<Seq<char>> {
    seq![
        "fetch"@,
        "origin"@,
        "+refs/heads/"@ + branch + ":refs/remotes/origin/"@ + branch,
    ]
}

/// The arguments that remove a checkout.
pub open spec fn remove_worktree_arguments(path: Seq<char>) -> Seq<Seq<char>> {
    seq!["worktree"@, "remove"@, path]
}

/// The arguments that delete a branch.
pub open spec fn delete_branch_arguments(branch: Seq<char>) -> Seq<Seq<char>> {
    seq!["branch"@, "-d"@, branch]
}

impl GitCall {
    /// The arguments that put the call to git.
    pub open spec fn arguments(self) -> Seq<Seq<char>> {
        match self {
            GitCall::Paths => seq![
                "rev-parse"@,
                "--path-format=absolute"@,
                "--git-common-dir"@,
                "--show-toplevel"@,
            ],
            GitCall::Branch => seq!["rev-parse"@, "--abbrev-ref"@, "HEAD"@],
            GitCall::Commit => seq!["rev-parse"@, "HEAD"@],
            GitCall::Origin => seq!["remote"@, "get-url"@, "origin"@],
            GitCall::Refs => seq!["for-each-ref"@, ref_format(), "refs/heads"@, "refs/remotes"@],
            GitCall::RemoteHeads => seq!["ls-remote"@, "--heads"@, "origin"@],
            GitCall::FetchBranch(branch) => fetch_branch_arguments(branch@),
            GitCall::FetchAll => seq!["fetch"@, "origin"@, "--prune"@],
            GitCall::RemoveWorktree(path) => remove_worktree_arguments(path@),
            GitCall::DeleteBranch(branch) => delete_branch_arguments(branch@),
            GitCall::Status => seq![
                "-c"@,
                "status.showUntrackedFiles=all"@,
                "--no-optional-locks"@,
                "status"@,
                "--porcelain"@,
            ],
        }
    }

    /// The arguments that put the call to git.
    pub fn args(&self) -> (args: Vec<String>)
        ensures
            text::texts(args@) == self.arguments(),
            *self matches GitCall::RemoveWorktree(path) ==> text::texts(args@) == seq![
                "worktree"@,
                "remove"@,
                path@,
            ],
            *self matches GitCall::DeleteBranch(branch) ==> text::texts(args@) == seq![
                "branch"@,
                "-d"@,
                branch@,
            ],
            *self matches GitCall::FetchBranch(branch) ==> text::texts(args@) == seq![
                "fetch"@,
                "origin"@,
                "+refs/heads/"@ + branch@ + ":refs/remotes/origin/"@ + branch@,
            ],
            *self is FetchAll ==> text::texts(args@) == seq!["fetch"@, "origin"@, "--prune"@],
            *self is Status ==> text::texts(args@) == seq![
                "-c"@,
                "status.showUntrackedFiles=all"@,
                "--no-optional-locks"@,
                "status"@,
                "--porcelain"@,
            ],
            *self is RemoteHeads ==> text::texts(args@) == seq![
                "ls-remote"@,
                "--heads"@,
                "origin"@,
            ],
            *self is Refs ==> text::texts(args@) == seq![
                "for-each-ref"@,
                "--format=%(refname)%09%(committerdate:unix)%09%(upstream:short)%09%(upstream:track)%09%(push:track)%09%(worktreepath)%09%(contents:subject)"@,
                "refs/heads"@,
                "refs/remotes"@,
            ],
            *self is Paths ==> text::texts(args@) == seq![
                "rev-parse"@,
                "--path-format=absolute"@,
                "--git-common-dir"@,
                "--show-toplevel"@,
            ],
            *self is Branch ==> text::texts(args@) == seq![
                "rev-parse"@,
                "--abbrev-ref"@,
                "HEAD"@,
            ],
            *self is Commit ==> text::texts(args@) == seq!["rev-parse"@, "HEAD"@],
            *self is Origin ==> text::texts(args@) == seq!["remote"@, "get-url"@, "origin"@],
    {
        let args = match self {
            GitCall::Paths => owned(
                [
                    "rev-parse",
                    "--path-format=absolute",
                    "--git-common-dir",
                    "--show-toplevel",
                ].as_slice(),
            ),
            GitCall::Branch => owned(["rev-parse", "--abbrev-ref", "HEAD"].as_slice()),
            GitCall::Commit => owned(["rev-parse", "HEAD"].as_slice()),
            GitCall::Origin => owned(["remote", "get-url", "origin"].as_slice()),
            GitCall::Refs => owned(
                [
                    "for-each-ref",
                    "--format=%(refname)%09%(committerdate:unix)%09%(upstream:short)%09%(upstream:track)%09%(push:track)%09%(worktreepath)%09%(contents:subject)",
                    "refs/heads",
                    "refs/remotes",
                ].as_slice(),
            ),
            GitCall::RemoteHeads => owned(["ls-remote", "--heads", "origin"].as_slice()),
            GitCall::FetchBranch(branch) => {
                let mut refspec = "+refs/heads/".to_owned();
                refspec.append(branch.as_str());
                refspec.append(":refs/remotes/origin/");
                refspec.append(branch.as_str());
                owned(["fetch", "origin", refspec.as_str()].as_slice())
            },
            GitCall::FetchAll => owned(["fetch", "origin", "--prune"].as_slice()),
            GitCall::RemoveWorktree(path) => owned(
                ["worktree", "remove", path.as_str()].as_slice(),
            ),
            GitCall::DeleteBranch(branch) => owned(["branch", "-d", branch.as_str()].as_slice()),
            GitCall::Status => owned(
                [
                    "-c",
                    "status.showUntrackedFiles=all",
                    "--no-optional-locks",
                    "status",
                    "--porcelain",
                ].as_slice(),
            ),
        };
        assert(text::texts(args@) =~= self.arguments());
        args
    }
}

/// How a program fared: what it left behind, or the words for why it could not be started.
pub type Ran = Result<Output, String>;

/// The command that puts `args` to git in `dir`.
pub open spec fn git_command(dir: Seq<char>, args: Seq<Seq<char>>) -> InvocationView {
    InvocationView { program: "git"@, args: seq!["-C"@, dir] + args, envs: seq![git_locale()] }
}

/// What a run of git said: both outputs where it went well, nothing where there was no
/// repository to run in, and the words of the refusal otherwise.
pub open spec fn said(args: Seq<Seq<char>>, ran: Result<OutputView, Seq<char>>) -> Result<
    Option<SaidView>,
    Seq<char>,
> {
    match ran {
        Err(error) => Err(could_not_run_words(args, error)),
        Ok(output) => answered(
            args,
            output.code,
            SaidView { stdout: lossy(output.stdout), stderr: lossy(output.stderr) },
        ),
    }
}

/// What git answered, from how it ended and from what it said.
pub open spec fn answered(args: Seq<Seq<char>>, code: Option<i32>, said: SaidView) -> Result<
    Option<SaidView>,
    Seq<char>,
> {
    if code == Some(0i32) {
        Ok(Some(said))
    } else if code == Some(GIT_FATAL) && not_a_repository(said.stderr) {
        Ok(None)
    } else {
        Err(refusal_words(args, said.stderr))
    }
}

/// Whether git's words say that a directory is in no repository, or is not there at all.
pub open spec fn not_a_repository(stderr: Seq<char>) -> bool {
    text::contains(stderr, "not a git repository"@) || text::contains(stderr, "cannot change to"@)
}

/// What a run of git in a repository said. No repository there is a failure too.
pub open spec fn said_in_repo(
    dir: Seq<char>,
    args: Seq<Seq<char>>,
    ran: Result<OutputView, Seq<char>>,
) -> Result<SaidView, Seq<char>> {
    match said(args, ran) {
        Ok(Some(words)) => Ok(words),
        Ok(None) => Err(dir + " is not a git repository, but was expected to be"@),
        Err(words) => Err(words),
    }
}

/// The first two lines of what git said, trimmed: the repository's key and the checkout's path.
pub open spec fn two_paths(said: Result<Option<SaidView>, Seq<char>>) -> Result<
    Option<(Seq<char>, Seq<char>)>,
    Seq<char>,
> {
    match said {
        Err(words) => Err(words),
        Ok(None) => Ok(None),
        Ok(Some(words)) => Ok(first_two(words.stdout)),
    }
}

/// The branch that git's answer names; `HEAD` names none.
pub open spec fn branch_said(stdout: Seq<char>) -> Option<Seq<char>> {
    let name = text::trim(stdout);
    if name.len() == 0 || name == "HEAD"@ {
        None
    } else {
        Some(name)
    }
}

/// The branch that git's answer names, where it gave one.
pub open spec fn named_branch(said: Option<SaidView>) -> Option<Seq<char>> {
    match said {
        None => None,
        Some(words) => branch_said(words.stdout),
    }
}

/// What `HEAD` points at, as far as the first question tells.
pub enum Head {
    /// The branch of this name.
    Branch(String),
    /// No branch: the commit has to be asked for.
    Detached,
}

#[verifier::ext_equal]
pub enum HeadView {
    Branch(Seq<char>),
    Detached,
}

impl View for Head {
    type V = HeadView;

    open spec fn view(&self) -> HeadView {
        match self {
            Head::Branch(name) => HeadView::Branch(name@),
            Head::Detached => HeadView::Detached,
        }
    }
}

/// What git answered, from how it ended and from what it said.
pub fn answer(call: &GitCall, code: Option<i32>, said: Said) -> (result: Result<
    Option<Said>,
    String,
>)
    ensures
        shapes::outcome_opt(result) == answered(call.arguments(), code, said@),
{
    match code {
        Some(code) => {
            if code == 0 {
                return Ok(Some(said));
            }
            if code == GIT_FATAL && (holds(said.stderr.as_str(), "not a git repository") || holds(
                said.stderr.as_str(),
                "cannot change to",
            )) {
                return Ok(None);
            }
        },
        None => {},
    }
    Err(refusal_of(call, said.stderr.as_str()))
}

/// The first two lines of what git said, trimmed; nothing where it said fewer.
pub open spec fn first_two(stdout: Seq<char>) -> Option<(Seq<char>, Seq<char>)> {
    let all = text::lines(stdout);
    if all.len() < 2 {
        None
    } else {
        Some((text::trim(all[0]), text::trim(all[1])))
    }
}

/// The repository's key and the checkout's path, from what git said.
pub fn paths_in(stdout: &str) -> (paths: Option<(String, String)>)
    ensures
        match paths {
            Some((key, checkout)) => first_two(stdout@) == Some((key@, checkout@)),
            None => first_two(stdout@) is None,
        },
{
    let cs = chars_of(stdout);
    let all = lines_of(cs.as_slice());
    if all.len() < 2 {
        None
    } else {
        assert(text::pieces(all@)[0] == all@[0]@);
        assert(text::pieces(all@)[1] == all@[1]@);
        Some((text_of(trimmed(all[0])), text_of(trimmed(all[1]))))
    }
}

/// The branch that git's answer names.
pub fn branch_in(stdout: &str) -> (branch: Option<String>)
    ensures
        shapes::opt(branch) == branch_said(stdout@),
{
    let cs = chars_of(stdout);
    let name = trimmed(cs.as_slice());
    if name.len() == 0 || spells(name, "HEAD") {
        None
    } else {
        Some(text_of(name))
    }
}

/// The slug that the answer about a remote names, from how git ended and from what it said.
pub open spec fn slug_answered(code: Option<i32>, said: SaidView) -> Result<
    Option<Seq<char>>,
    Seq<char>,
> {
    if code == Some(0i32) {
        Ok(url_slug(said.stdout))
    } else if code == Some(2i32) && text::contains(said.stderr, "No such remote"@) {
        Ok(None)
    } else {
        Err(refusal_words(GitCall::Origin.arguments(), said.stderr))
    }
}

/// The slug that the answer about a remote names.
pub fn slug_in(code: Option<i32>, said: &Said) -> (slug: Result<Option<Slug>, String>)
    ensures
        shapes::outcome_opt(slug) == slug_answered(code, said@),
{
    match code {
        Some(code) => {
            if code == 0 {
                return Ok(github_slug_from_url(said.stdout.as_str()));
            }
        },
        None => {},
    }
    if no_such_remote(code, said.stderr.as_str()) {
        return Ok(None);
    }
    Err(refusal_of(&GitCall::Origin, said.stderr.as_str()))
}

/// Whether a status names anything uncommitted, or the words for the directories it left out.
pub open spec fn dirty_said(said: SaidView) -> Result<bool, Seq<char>> {
    match warned(said.stderr, unread_openings()) {
        Some(words) => Err(words),
        None => Ok(text::trim(said.stdout).len() > 0),
    }
}

/// Whether a status names anything uncommitted.
pub fn dirty_in(said: &Said) -> (dirty: Result<bool, String>)
    ensures
        match dirty {
            Ok(answer) => {
                &&& dirty_said(said@) == Ok::<_, Seq<char>>(answer)
                &&& answer <==> exists|i: int|
                    0 <= i < said@.stdout.len() && !text::is_white(#[trigger] said@.stdout[i])
            },
            Err(words) => dirty_said(said@) == Err::<bool, _>(words@),
        },
{
    proof {
        law_any_mark_is_uncommitted_work(said@);
    }
    match unread_paths(said.stderr.as_str()) {
        Some(words) => Err(words),
        None => {
            let cs = chars_of(said.stdout.as_str());
            Ok(trimmed(cs.as_slice()).len() > 0)
        },
    }
}

/// The git command line.
pub struct GitCli;

impl GitCli {
    /// The command that puts a call to git in `dir`, in the locale whose words are read here.
    pub fn command(dir: &str, call: &GitCall) -> (command: Invocation)
        ensures
            command@ == git_command(dir@, call.arguments()),
            command@.program == "git"@,
            command@.args == seq!["-C"@, dir@] + call.arguments(),
            command@.envs == seq![("LC_ALL"@, "C"@)],
    {
        let mut args = owned(["-C", dir].as_slice());
        let mut rest = call.args();
        let ghost first = text::texts(args@);
        let ghost second = text::texts(rest@);
        args.append(&mut rest);
        assert(text::texts(args@) =~= first + second);
        assert(first =~= seq!["-C"@, dir@]);
        let mut envs: Vec<(String, String)> = Vec::new();
        envs.push(("LC_ALL".to_owned(), "C".to_owned()));
        let command = Invocation { program: "git".to_owned(), args, envs };
        assert(command@ =~= git_command(dir@, call.arguments()));
        command
    }

    /// What the program left behind, or the words for why git could not be run.
    fn output<'a>(call: &GitCall, ran: &'a Ran) -> (output: Result<&'a Output, String>)
        ensures
            match (output, *ran) {
                (Ok(o), Ok(r)) => *o == r,
                (Err(words), Err(error)) => words@ == could_not_run_words(call.arguments(), error@),
                _ => false,
            },
    {
        match ran {
            Ok(output) => Ok(output),
            Err(error) => {
                let mut words = "git could not be run: ".to_owned();
                words.append(error.as_str());
                Err(refusal_of(call, words.as_str()))
            },
        }
    }

    /// What a run of git said.
    pub fn run(call: &GitCall, ran: &Ran) -> (result: Result<Option<Said>, String>)
        ensures
            shapes::outcome_opt(result) == said(call.arguments(), shapes::outcome(*ran)),
    {
        match GitCli::output(call, ran) {
            Ok(output) => {
                let stdout = lossy_text(output.stdout.as_slice());
                let stderr = lossy_text(output.stderr.as_slice());
                answer(call, output.code, Said { stdout, stderr })
            },
            Err(words) => Err(words),
        }
    }

    /// What a run of git in a repository said.
    pub fn run_in_repo(dir: &str, call: &GitCall, ran: &Ran) -> (result: Result<Said, String>)
        ensures
            shapes::outcome(result) == said_in_repo(
                dir@,
                call.arguments(),
                shapes::outcome(*ran),
            ),
    {
        match GitCli::run(call, ran) {
            Err(words) => Err(words),
            Ok(Some(said)) => Ok(said),
            Ok(None) => {
                let mut words = dir.to_owned();
                words.append(" is not a git repository, but was expected to be");
                Err(words)
            },
        }
    }

    /// The key and the checkout that the answer to `GitCall::Paths` names; nothing where the
    /// directory is in no repository.
    pub fn identify_paths(ran: &Ran) -> (paths: Result<Option<(String, String)>, String>)
        ensures
            match paths {
                Ok(Some((key, checkout))) => two_paths(
                    said(GitCall::Paths.arguments(), shapes::outcome(*ran)),
                ) == Ok::<_, Seq<char>>(Some((key@, checkout@))),
                Ok(None) => two_paths(said(GitCall::Paths.arguments(), shapes::outcome(*ran)))
                    == Ok::<Option<(Seq<char>, Seq<char>)>, Seq<char>>(None),
                Err(words) => two_paths(said(GitCall::Paths.arguments(), shapes::outcome(*ran)))
                    == Err::<Option<(Seq<char>, Seq<char>)>, _>(words@),
            },
    {
        match GitCli::run(&GitCall::Paths, ran) {
            Err(words) => Err(words),
            Ok(None) => Ok(None),
            Ok(Some(said)) => Ok(paths_in(said.stdout.as_str())),
        }
    }

    /// The repository, checkout and branch that a directory is in: its two paths, and the branch
    /// that the answer to `GitCall::Branch` names.
    pub fn identify(paths: (String, String), ran: &Ran) -> (identity: Result<RepoIdentity, String>)
        ensures
            shapes::outcome(identity) == match said(
                GitCall::Branch.arguments(),
                shapes::outcome(*ran),
            ) {
                Err(words) => Err::<RepoIdentityView, _>(words),
                Ok(said) => Ok(
                    RepoIdentityView {
                        repo_key: paths.0@,
                        checkout_path: paths.1@,
                        branch: named_branch(said),
                    },
                ),
            },
    {
        match GitCli::run(&GitCall::Branch, ran) {
            Err(words) => Err(words),
            Ok(said) => {
                let branch = match said {
                    None => None,
                    Some(said) => branch_in(said.stdout.as_str()),
                };
                Ok(RepoIdentity { repo_key: paths.0, checkout_path: paths.1, branch })
            },
        }
    }

    /// The slug that the answer to `GitCall::Origin` names. A repository without that remote has
    /// none, and so has one whose remote is not on GitHub.
    pub fn github_slug(ran: &Ran) -> (slug: Result<Option<Slug>, String>)
        ensures
            shapes::outcome_opt(slug) == match *ran {
                Err(error) => Err::<Option<Seq<char>>, _>(
                    could_not_run_words(GitCall::Origin.arguments(), error@),
                ),
                Ok(output) => slug_answered(
                    output.code,
                    SaidView { stdout: lossy(output.stdout@), stderr: lossy(output.stderr@) },
                ),
            },
    {
        match GitCli::output(&GitCall::Origin, ran) {
            Ok(output) => {
                let stdout = lossy_text(output.stdout.as_slice());
                let stderr = lossy_text(output.stderr.as_slice());
                slug_in(output.code, &Said { stdout, stderr })
            },
            Err(words) => Err(words),
        }
    }

    /// The refs that the answer to `GitCall::Refs` lists, and what git said of those it left out.
    pub fn local_refs(repo_root: &str, ran: &Ran) -> (walk: Result<RefWalk, String>)
        ensures
            shapes::outcome(walk) == match said_in_repo(
                repo_root@,
                GitCall::Refs.arguments(),
                shapes::outcome(*ran),
            ) {
                Err(words) => Err::<RefWalkView, _>(words),
                Ok(said) => Ok(
                    RefWalkView {
                        refs: refs_of_lines(text::lines(said.stdout)),
                        dropped: warned(said.stderr, dropped_openings()),
                    },
                ),
            },
    {
        match GitCli::run_in_repo(repo_root, &GitCall::Refs, ran) {
            Err(words) => Err(words),
            Ok(said) => {
                let refs = refs_in(said.stdout.as_str());
                let dropped = dropped_refs(said.stderr.as_str());
                Ok(RefWalk { refs, dropped })
            },
        }
    }

    /// The branches that the answer to `GitCall::RemoteHeads` lists.
    pub fn remote_heads(repo_root: &str, ran: &Ran) -> (heads: Result<Vec<String>, String>)
        ensures
            match (
                heads,
                said_in_repo(repo_root@, GitCall::RemoteHeads.arguments(), shapes::outcome(*ran)),
            ) {
                (Err(words), Err(said)) => words@ == said,
                (Ok(names), Ok(said)) => text::texts(names@) == heads_of_lines(
                    text::lines(said.stdout),
                ),
                _ => false,
            },
    {
        match GitCli::run_in_repo(repo_root, &GitCall::RemoteHeads, ran) {
            Err(words) => Err(words),
            Ok(said) => Ok(heads_in(said.stdout.as_str())),
        }
    }

    /// Whether a call that only has to go well did.
    fn done(repo_root: &str, call: &GitCall, ran: &Ran) -> (result: Result<(), String>)
        ensures
            match (result, said_in_repo(repo_root@, call.arguments(), shapes::outcome(*ran))) {
                (Err(words), Err(said)) => words@ == said,
                (Ok(()), Ok(_)) => true,
                _ => false,
            },
    {
        match GitCli::run_in_repo(repo_root, call, ran) {
            Err(words) => Err(words),
            Ok(_) => Ok(()),
        }
    }

    /// Whether the fetch of one branch went well, and the words for why not.
    pub fn fetch_branch(repo_root: &str, branch: &str, ran: &Ran) -> (result: Result<(), String>)
        ensures
            match (
                result,
                said_in_repo(repo_root@, fetch_branch_arguments(branch@), shapes::outcome(*ran)),
            ) {
                (Err(words), Err(said)) => words@ == said,
                (Ok(()), Ok(_)) => true,
                _ => false,
            },
    {
        GitCli::done(repo_root, &GitCall::FetchBranch(branch.to_owned()), ran)
    }

    /// Whether the fetch of every branch went well, and the words for why not.
    pub fn fetch_all(repo_root: &str, ran: &Ran) -> (result: Result<(), String>)
        ensures
            match (
                result,
                said_in_repo(repo_root@, GitCall::FetchAll.arguments(), shapes::outcome(*ran)),
            ) {
                (Err(words), Err(said)) => words@ == said,
                (Ok(()), Ok(_)) => true,
                _ => false,
            },
    {
        GitCli::done(repo_root, &GitCall::FetchAll, ran)
    }

    /// Whether the removal of a checkout went well, and the words for why not.
    pub fn remove_worktree(repo_root: &str, checkout_path: &str, ran: &Ran) -> (result: Result<
        (),
        String,
    >)
        ensures
            match (
                result,
                said_in_repo(repo_root@, remove_worktree_arguments(checkout_path@), shapes::outcome(*ran)),
            ) {
                (Err(words), Err(said)) => words@ == said,
                (Ok(()), Ok(_)) => true,
                _ => false,
            },
    {
        GitCli::done(repo_root, &GitCall::RemoveWorktree(checkout_path.to_owned()), ran)
    }

    /// Whether the deletion of a branch went well, and the words for why not.
    pub fn delete_branch(repo_root: &str, branch: &str, ran: &Ran) -> (result: Result<(), String>)
        ensures
            match (
                result,
                said_in_repo(repo_root@, delete_branch_arguments(branch@), shapes::outcome(*ran)),
            ) {
                (Err(words), Err(said)) => words@ == said,
                (Ok(()), Ok(_)) => true,
                _ => false,
            },
    {
        GitCli::done(repo_root, &GitCall::DeleteBranch(branch.to_owned()), ran)
    }

    /// Whether the answer to `GitCall::Status` names anything uncommitted. A status that left a
    /// directory out is no answer.
    pub fn is_dirty(checkout_path: &str, ran: &Ran) -> (dirty: Result<bool, String>)
        ensures
            match (
                dirty,
                said_in_repo(checkout_path@, GitCall::Status.arguments(), shapes::outcome(*ran)),
            ) {
                (Err(words), Err(said)) => words@ == said,
                (Err(words), Ok(said)) => dirty_said(said) == Err::<bool, _>(words@),
                (Ok(answer), Ok(said)) => {
                    &&& dirty_said(said) == Ok::<_, Seq<char>>(answer)
                    &&& answer <==> exists|i: int|
                        0 <= i < said.stdout.len() && !text::is_white(#[trigger] said.stdout[i])
                },
                _ => false,
            },
    {
        match GitCli::run_in_repo(checkout_path, &GitCall::Status, ran) {
            Err(words) => Err(words),
            Ok(said) => dirty_in(&said),
        }
    }

    /// The branch that the answer to `GitCall::Branch` names, or that there is none.
    pub fn head_ref(repo_root: &str, ran: &Ran) -> (head: Result<Head, String>)
        ensures
            shapes::outcome(head) == match said_in_repo(
                repo_root@,
                GitCall::Branch.arguments(),
                shapes::outcome(*ran),
            ) {
                Err(words) => Err::<HeadView, _>(words),
                Ok(said) => Ok(
                    match named_branch(Some(said)) {
                        Some(name) => HeadView::Branch(name),
                        None => HeadView::Detached,
                    },
                ),
            },
    {
        match GitCli::run_in_repo(repo_root, &GitCall::Branch, ran) {
            Err(words) => Err(words),
            Ok(said) => match branch_in(said.stdout.as_str()) {
                Some(name) => Ok(Head::Branch(name)),
                None => Ok(Head::Detached),
            },
        }
    }

    /// The commit that the answer to `GitCall::Commit` names.
    pub fn head_commit(repo_root: &str, ran: &Ran) -> (commit: Result<String, String>)
        ensures
            shapes::outcome(commit) == match said_in_repo(
                repo_root@,
                GitCall::Commit.arguments(),
                shapes::outcome(*ran),
            ) {
                Err(words) => Err::<Seq<char>, _>(words),
                Ok(said) => Ok(text::trim(said.stdout)),
            },
    {
        match GitCli::run_in_repo(repo_root, &GitCall::Commit, ran) {
            Err(words) => Err(words),
            Ok(said) => Ok(trimmed_text(said.stdout.as_str())),
        }
    }
}

/// The words of a refusal of a call.
fn refusal_of(call: &GitCall, stderr: &str) -> (words: String)
    ensures
        words@ == refusal_words(call.arguments(), stderr@),
{
    refusal_with(&call.args(), stderr)
}

// ---------------------------------------------------------------- laws

proof fn lemma_strip_prefix(prefix: Seq<char>, rest: Seq<char>)
    ensures
        text::strip_prefix(prefix + rest, prefix) == Some(rest),
{
    assert((prefix + rest).skip(prefix.len() as int) =~= rest);
    assert(prefix.is_prefix_of(prefix + rest)) by {
        assert((prefix + rest).subrange(0, prefix.len() as int) =~= prefix);
    }
}

proof fn lemma_heads_is_not_remotes(rest: Seq<char>)
    ensures
        text::strip_prefix("refs/remotes/"@ + rest, "refs/heads/"@) is None,
{
    reveal_strlit("refs/heads/");
    reveal_strlit("refs/remotes/");
    let name = "refs/remotes/"@ + rest;
    if "refs/heads/"@.is_prefix_of(name) {
        assert("refs/heads/"@ == name.subrange(0, 11));
        assert("refs/heads/"@[5] == name[5]);
    }
}

/// A ref of this repository is read as the branch of exactly its name, and one of a remote as the
/// branch of exactly the name that stands behind the remote's, slashes and all.
pub proof fn law_ref_is_read_by_its_whole_name(remote: Seq<char>, branch: Seq<char>)
    requires
        branch.len() > 0,
        text::lacks(remote, '/'),
    ensures
        branch_of("refs/heads/"@ + branch) == Some((branch, RefKind::Local)),
        branch != "HEAD"@ ==> branch_of("refs/remotes/"@ + remote + "/"@ + branch) == Some(
            (branch, RefKind::Remote),
        ),
        branch_of("refs/remotes/"@ + remote + "/HEAD"@) is None,
{
    reveal_strlit("/");
    reveal_strlit("HEAD");
    reveal_strlit("/HEAD");
    lemma_strip_prefix("refs/heads/"@, branch);
    let rest = remote + seq!['/'] + branch;
    assert("refs/remotes/"@ + remote + "/"@ + branch =~= "refs/remotes/"@ + rest);
    lemma_strip_prefix("refs/remotes/"@, rest);
    lemma_heads_is_not_remotes(rest);
    text::law_split_at_the_first(remote, '/', branch);
    let head = remote + seq!['/'] + "HEAD"@;
    assert("refs/remotes/"@ + remote + "/HEAD"@ =~= "refs/remotes/"@ + head);
    lemma_strip_prefix("refs/remotes/"@, head);
    lemma_heads_is_not_remotes(head);
    text::law_split_at_the_first(remote, '/', "HEAD"@);
}

/// Whatever ref is read as a branch, the place that such branches are kept in and the name that was
/// read make the ref again; and a remote's `HEAD` is no branch.
pub proof fn law_read_name_makes_the_ref(refname: Seq<char>)
    ensures
        match branch_of(refname) {
            Some((name, RefKind::Local)) => name.len() > 0 && refname == "refs/heads/"@ + name,
            Some((name, RefKind::Remote)) => name.len() > 0 && name != "HEAD"@ && exists|remote:
                Seq<char>| #[trigger]
                text::lacks(remote, '/') && refname == "refs/remotes/"@ + remote + seq!['/'] + name,
            None => true,
        },
{
    match text::strip_prefix(refname, "refs/heads/"@) {
        Some(branch) => {
            assert("refs/heads/"@ + branch =~= refname);
        },
        None => match text::strip_prefix(refname, "refs/remotes/"@) {
            Some(rest) => {
                assert("refs/remotes/"@ + rest =~= refname);
                text::lemma_find(rest, '/');
                match text::split_once(rest, '/') {
                    Some((remote, branch)) => {
                        assert(text::lacks(remote, '/'));
                        assert(rest =~= remote + seq!['/'] + branch);
                        assert(refname =~= "refs/remotes/"@ + remote + seq!['/'] + branch);
                    },
                    None => {},
                }
            },
            None => {},
        },
    }
}

/// A line of git's listing is read field by field: the ref, the seconds of its date, its upstream,
/// how it stands to that, its checkout, and the whole rest of the line as its subject. What is
/// empty is not there, and a line of what is no branch is left out.
pub proof fn law_listed_ref_is_read(
    refname: Seq<char>,
    seconds: nat,
    upstream: Seq<char>,
    upstream_track: Seq<char>,
    push_track: Seq<char>,
    checkout: Seq<char>,
    subject: Seq<char>,
)
    requires
        seconds <= i64::MAX,
        text::lacks(refname, '\t'),
        text::lacks(upstream, '\t'),
        text::lacks(upstream_track, '\t'),
        text::lacks(push_track, '\t'),
        text::lacks(checkout, '\t'),
    ensures
        ref_of_line(
            refname + seq!['\t'] + text::decimal(seconds) + seq!['\t'] + upstream + seq!['\t']
                + upstream_track + seq!['\t'] + push_track + seq!['\t'] + checkout + seq!['\t']
                + subject,
        ) == match branch_of(refname) {
            Some((name, kind)) => Some(
                GitRefView {
                    name,
                    kind,
                    committed_at: Some(seconds as i64),
                    subject: if subject.len() == 0 { None } else { Some(subject) },
                    upstream: if upstream.len() == 0 { None } else { Some(upstream) },
                    track: branch_track(upstream.len() > 0, upstream_track, push_track),
                    worktree_path: if checkout.len() == 0 { None } else { Some(checkout) },
                },
            ),
            None => None,
        },
{
    let date = text::decimal(seconds);
    let tab = seq!['\t'];
    let fields = seq![refname, date, upstream, upstream_track, push_track, checkout, subject];
    text::law_decimal_reads_back(seconds, seconds, 0x7fff_ffff_ffff_ffff);
    assert(text::lacks(date, '\t'));
    assert(date[0] != '-') by {
        text::lemma_decimal(seconds);
        assert(text::is_digit(date[0]));
    }
    assert forall|i: int| 0 <= i < fields.len() - 1 implies text::lacks(#[trigger] fields[i], '\t') by {
        assert(i == 0 || i == 1 || i == 2 || i == 3 || i == 4 || i == 5);
    }
    text::law_joined_fields_split(fields, '\t', 7);
    lemma_seven_joined(fields, tab);
    assert(text::signed_number(date) == Some(seconds as int));
}

proof fn lemma_seven_joined(f: Seq<Seq<char>>, tab: Seq<char>)
    requires
        f.len() == 7,
    ensures
        text::join(f, tab) == f[0] + tab + f[1] + tab + f[2] + tab + f[3] + tab + f[4] + tab + f[5]
            + tab + f[6],
{
    reveal_with_fuel(text::join, 8);
    let g = f.drop_last();
    let h = g.drop_last();
    let k = h.drop_last();
    let l = k.drop_last();
    let m = l.drop_last();
    let n = m.drop_last();
    assert(text::join(n, tab) == f[0]);
    assert(text::join(m, tab) == f[0] + tab + f[1]);
    assert(text::join(l, tab) == f[0] + tab + f[1] + tab + f[2]);
    assert(text::join(k, tab) == f[0] + tab + f[1] + tab + f[2] + tab + f[3]);
    assert(text::join(h, tab) == f[0] + tab + f[1] + tab + f[2] + tab + f[3] + tab + f[4]);
    assert(text::join(g, tab) == f[0] + tab + f[1] + tab + f[2] + tab + f[3] + tab + f[4] + tab
        + f[5]);
}

/// A listing is read line by line: the refs of one listing below another are those of the first
/// and then those of the second, and a line alone gives the ref that it names or none.
pub proof fn law_listing_is_read_line_by_line(one: Seq<Seq<char>>, other: Seq<Seq<char>>, line: Seq<char>)
    ensures
        refs_of_lines(one + other) == refs_of_lines(one) + refs_of_lines(other),
        refs_of_lines(seq![line]) == match ref_of_line(line) {
            Some(found) => seq![found],
            None => seq![],
        },
        heads_of_lines(one + other) == heads_of_lines(one) + heads_of_lines(other),
        heads_of_lines(seq![line]) == match head_of_line(line) {
            Some(name) => seq![name],
            None => seq![],
        },
    decreases other.len(),
{
    assert(seq![line].drop_last() =~= seq![]);
    assert(refs_of_lines(seq![line].drop_last()) =~= seq![]);
    assert(heads_of_lines(seq![line].drop_last()) =~= seq![]);
    if other.len() == 0 {
        assert(one + other =~= one);
        assert(refs_of_lines(one) + refs_of_lines(other) =~= refs_of_lines(one));
        assert(heads_of_lines(one) + heads_of_lines(other) =~= heads_of_lines(one));
    } else {
        law_listing_is_read_line_by_line(one, other.drop_last(), line);
        assert((one + other).drop_last() =~= one + other.drop_last());
        assert((one + other).last() == other.last());
        assert(refs_of_lines(one + other) =~= refs_of_lines(one) + refs_of_lines(other));
        assert(heads_of_lines(one + other) =~= heads_of_lines(one) + heads_of_lines(other));
    }
}

/// A remote's branches are read by their whole names, and nothing else that it lists is one.
pub proof fn law_remote_head_is_read_by_its_whole_name(commit: Seq<char>, name: Seq<char>, line: Seq<char>)
    requires
        text::lacks(commit, '\t'),
    ensures
        head_of_line(commit + seq!['\t'] + "refs/heads/"@ + name) == Some(name),
        head_of_line(line) matches Some(read) ==> exists|commit: Seq<char>| #[trigger]
            text::lacks(commit, '\t') && line == commit + seq!['\t'] + "refs/heads/"@ + read,
{
    let rest = "refs/heads/"@ + name;
    assert(commit + seq!['\t'] + "refs/heads/"@ + name =~= commit + seq!['\t'] + rest);
    text::law_split_at_the_first(commit, '\t', rest);
    lemma_strip_prefix("refs/heads/"@, name);
    text::lemma_find(line, '\t');
    match text::split_once(line, '\t') {
        Some((commit, rest)) => {
            assert(text::lacks(commit, '\t'));
            match text::strip_prefix(rest, "refs/heads/"@) {
                Some(read) => {
                    assert(line =~= commit + seq!['\t'] + "refs/heads/"@ + read);
                },
                None => {},
            }
        },
        None => {},
    }
}

/// A status that left no directory out calls the checkout clean exactly where all that it says is
/// white space: any mark at all, of a file that git knows or of one that it does not, makes it
/// dirty. A status that left one out is no answer.
pub proof fn law_any_mark_is_uncommitted_work(said: SaidView)
    ensures
        match dirty_said(said) {
            Ok(dirty) => {
                &&& dirty <==> exists|i: int|
                    0 <= i < said.stdout.len() && !text::is_white(#[trigger] said.stdout[i])
                &&& forall|i: int|
                    0 <= i < text::lines(said.stderr).len()
                        ==> !"warning: could not open directory "@.is_prefix_of(
                        text::trim(#[trigger] text::lines(said.stderr)[i]),
                    )
            },
            Err(_) => exists|i: int|
                0 <= i < text::lines(said.stderr).len()
                    && "warning: could not open directory "@.is_prefix_of(
                    text::trim(#[trigger] text::lines(said.stderr)[i]),
                ),
        },
{
    let (a, b) = text::law_trim_takes_white_space_alone(said.stdout);
    let all = text::lines(said.stderr);
    lemma_warnings(all, unread_openings());
    let opening = unread_openings()[0];
    if warnings(all, unread_openings()).len() > 0 {
        let (i, k) = choose|i: int, k: int|
            0 <= i < all.len() && 0 <= k < unread_openings().len() && (
            #[trigger] unread_openings()[k]).is_prefix_of(text::trim(#[trigger] all[i]));
        assert(k == 0);
    } else {
        assert forall|i: int| 0 <= i < all.len() implies !"warning: could not open directory "@.is_prefix_of(
            text::trim(#[trigger] all[i]),
        ) by {
            assert(!unread_openings()[0].is_prefix_of(text::trim(all[i])));
        }
    }
}

proof fn lemma_warnings(all: Seq<Seq<char>>, openings: Seq<Seq<char>>)
    ensures
        warnings(all, openings).len() > 0 <==> exists|i: int, k: int|
            0 <= i < all.len() && 0 <= k < openings.len() && (
            #[trigger] openings[k]).is_prefix_of(text::trim(#[trigger] all[i])),
    decreases all.len(),
{
    if all.len() > 0 {
        let front = all.drop_last();
        lemma_warnings(front, openings);
        let line = text::trim(all.last());
        if warnings(front, openings).len() > 0 {
            let (i, k) = choose|i: int, k: int|
                0 <= i < front.len() && 0 <= k < openings.len() && (
                #[trigger] openings[k]).is_prefix_of(text::trim(#[trigger] front[i]));
            assert(all[i] == front[i]);
        }
        if exists|k: int| 0 <= k < openings.len() && #[trigger] openings[k].is_prefix_of(line) {
            let k = choose|k: int| 0 <= k < openings.len() && #[trigger] openings[k].is_prefix_of(line);
            assert(openings[k].is_prefix_of(text::trim(all[all.len() - 1])));
        }
        if exists|i: int, k: int|
            0 <= i < all.len() && 0 <= k < openings.len() && (
            #[trigger] openings[k]).is_prefix_of(text::trim(#[trigger] all[i])) {
            let (i, k) = choose|i: int, k: int|
                0 <= i < all.len() && 0 <= k < openings.len() && (
                #[trigger] openings[k]).is_prefix_of(text::trim(#[trigger] all[i]));
            if i < all.len() - 1 {
                assert(front[i] == all[i]);
            }
        }
    }
}

/// What git left out of a listing is told exactly where a line of its warnings says that it ignored
/// a ref, broken or by a broken name.
pub proof fn law_left_out_refs_are_told(stderr: Seq<char>)
    ensures
        warned(stderr, dropped_openings()) is Some <==> exists|i: int|
            0 <= i < text::lines(stderr).len() && ("warning: ignoring broken ref "@.is_prefix_of(
                text::trim(#[trigger] text::lines(stderr)[i]),
            ) || "warning: ignoring ref with broken name "@.is_prefix_of(
                text::trim(text::lines(stderr)[i]),
            )),
{
    let all = text::lines(stderr);
    let openings = dropped_openings();
    lemma_warnings(all, openings);
    if warnings(all, openings).len() > 0 {
        let (i, k) = choose|i: int, k: int|
            0 <= i < all.len() && 0 <= k < openings.len() && (
            #[trigger] openings[k]).is_prefix_of(text::trim(#[trigger] all[i]));
        assert(k == 0 || k == 1);
    }
    if exists|i: int|
        0 <= i < all.len() && ("warning: ignoring broken ref "@.is_prefix_of(
            text::trim(#[trigger] all[i]),
        ) || "warning: ignoring ref with broken name "@.is_prefix_of(text::trim(all[i]))) {
        let i = choose|i: int|
            0 <= i < all.len() && ("warning: ignoring broken ref "@.is_prefix_of(
                text::trim(#[trigger] all[i]),
            ) || "warning: ignoring ref with broken name "@.is_prefix_of(text::trim(all[i])));
        assert(openings[0].is_prefix_of(text::trim(all[i])) || openings[1].is_prefix_of(
            text::trim(all[i]),
        ));
    }
}

/// Whether an option makes git do what it would refuse to do.
pub open spec fn overrides(option: Seq<char>) -> bool {
    option == "--force"@ || option == "-f"@ || option == "-ff"@ || option == "-D"@ || option
        == "-fd"@ || option == "-df"@
}

/// A checkout is removed, and a branch deleted, in three words of which the last is what it is
/// about, and none of the others overrides git's refusal.
pub proof fn law_nothing_is_forced(path: String, branch: String)
    ensures
        GitCall::RemoveWorktree(path).arguments() == seq!["worktree"@, "remove"@, path@],
        GitCall::DeleteBranch(branch).arguments() == seq!["branch"@, "-d"@, branch@],
        forall|i: int| #![trigger GitCall::RemoveWorktree(path).arguments()[i]]
            0 <= i < GitCall::RemoveWorktree(path).arguments().len() - 1 ==> !overrides(
                GitCall::RemoveWorktree(path).arguments()[i],
            ),
        forall|i: int| #![trigger GitCall::DeleteBranch(branch).arguments()[i]]
            0 <= i < GitCall::DeleteBranch(branch).arguments().len() - 1 ==> !overrides(
                GitCall::DeleteBranch(branch).arguments()[i],
            ),
{
    reveal_strlit("worktree");
    reveal_strlit("remove");
    reveal_strlit("branch");
    reveal_strlit("-d");
    reveal_strlit("--force");
    reveal_strlit("-f");
    reveal_strlit("-ff");
    reveal_strlit("-D");
    reveal_strlit("-fd");
    reveal_strlit("-df");
    assert("worktree"@[0] == 'w' && "remove"@[0] == 'r' && "branch"@[0] == 'b');
    assert("--force"@[0] == '-' && "-f"@[0] == '-' && "-ff"@[0] == '-' && "-D"@[0] == '-');
    assert("-fd"@[0] == '-' && "-df"@[0] == '-');
    assert("-d"@[1] == 'd' && "-f"@[1] == 'f' && "-D"@[1] == 'D' && "-d"@.len() == 2);
    assert forall|i: int| #![trigger GitCall::RemoveWorktree(path).arguments()[i]]
        0 <= i < GitCall::RemoveWorktree(path).arguments().len() - 1 implies !overrides(
        GitCall::RemoveWorktree(path).arguments()[i],
    ) by {
        assert(i == 0 || i == 1);
    }
    assert forall|i: int| #![trigger GitCall::DeleteBranch(branch).arguments()[i]]
        0 <= i < GitCall::DeleteBranch(branch).arguments().len() - 1 implies !overrides(
        GitCall::DeleteBranch(branch).arguments()[i],
    ) by {
        assert(i == 0 || i == 1);
    }
}

/// A branch is fetched by its own name into the remote's branch of that name, so that what is cut
/// from `origin/` and its name is what was fetched.
pub proof fn law_fetched_under_its_own_name(branch: String)
    ensures
        GitCall::FetchBranch(branch).arguments() == seq![
            "fetch"@,
            "origin"@,
            "+refs/heads/"@ + branch@ + ":refs/remotes/origin/"@ + branch@,
        ],
        branch@.len() > 0 && branch@ != "HEAD"@ ==> branch_of("refs/remotes/origin/"@ + branch@)
            == Some((branch@, RefKind::Remote)),
{
    reveal_strlit("origin");
    reveal_strlit("/");
    reveal_strlit("refs/remotes/");
    reveal_strlit("refs/remotes/origin/");
    assert(text::lacks("origin"@, '/'));
    assert("refs/remotes/origin/"@ =~= "refs/remotes/"@ + "origin"@ + "/"@);
    if branch@.len() > 0 {
        law_ref_is_read_by_its_whole_name("origin"@, branch@);
        assert("refs/remotes/origin/"@ + branch@ =~= "refs/remotes/"@ + "origin"@ + "/"@ + branch@);
    }
}

/// Only a git that ended well has an answer; one that ended otherwise has none, and it counts as
/// having found no repository only where it gave up for good and said so.
pub proof fn law_only_a_good_end_answers(args: Seq<Seq<char>>, dir: Seq<char>, output: OutputView, error: Seq<char>)
    ensures
        said(args, Ok(output)) matches Ok(Some(answer)) ==> output.code == Some(0i32)
            && answer.stdout == lossy(output.stdout) && answer.stderr == lossy(output.stderr),
        output.code == Some(0i32) ==> said(args, Ok(output)) matches Ok(Some(_)),
        said(args, Ok(output)) == Ok::<Option<SaidView>, Seq<char>>(None) ==> output.code == Some(
            128i32,
        ) && (text::contains(lossy(output.stderr), "not a git repository"@) || text::contains(
            lossy(output.stderr),
            "cannot change to"@,
        )),
        said(args, Err(error)) is Err,
        said_in_repo(dir, args, Ok(output)) is Ok <==> output.code == Some(0i32),
        said_in_repo(dir, args, Err(error)) is Err,
{
}

/// What git says of the branch that is checked out is that branch, and where it says `HEAD` there
/// is none; what it says of where a directory is are its two lines, each as it stands.
pub proof fn law_said_name_is_taken_whole(name: Seq<char>, key: Seq<char>, checkout: Seq<char>)
    requires
        name.len() > 0,
        !text::is_white(name[0]) && !text::is_white(name.last()),
        text::is_line(key) && text::is_line(checkout),
        key.len() > 0 ==> !text::is_white(key[0]) && !text::is_white(key.last()),
        checkout.len() > 0 ==> !text::is_white(checkout[0]) && !text::is_white(checkout.last()),
    ensures
        branch_said(name + seq!['\n']) == if name == "HEAD"@ {
            None
        } else {
            Some(name)
        },
        branch_said(seq![]) is None,
        first_two(key + seq!['\n'] + checkout + seq!['\n']) == Some((key, checkout)),
        first_two(key) is None,
{
    let none: Seq<char> = seq![];
    text::law_trim_finds_what_was_padded(none, name, seq!['\n']);
    assert(none + name + seq!['\n'] =~= name + seq!['\n']);
    text::law_trim_finds_what_was_padded(none, none, none);
    assert(none + none + none =~= none);
    let all = seq![key, checkout];
    text::law_written_lines_read_back(all);
    assert(all.skip(1) =~= seq![checkout]);
    assert(all.skip(1).skip(1) =~= seq![]);
    assert(text::written(all.skip(1).skip(1)) =~= seq![]);
    assert(text::written(all.skip(1)) =~= checkout + seq!['\n']);
    assert(text::written(all) =~= key + seq!['\n'] + checkout + seq!['\n']);
    text::law_trim_finds_what_was_padded(none, key, none);
    assert(none + key + none =~= key);
    text::law_trim_finds_what_was_padded(none, checkout, none);
    assert(none + checkout + none =~= checkout);
    text::lemma_find_is(key, '\n', key.len() as int);
}

proof fn lemma_bracketed(inside: Seq<char>)
    ensures
        bracketed(seq!['['] + inside + seq![']']) == Some(inside),
        text::trim(seq!['['] + inside + seq![']']) == seq!['['] + inside + seq![']'],
{
    reveal_strlit("[");
    reveal_strlit("]");
    let whole = seq!['['] + inside + seq![']'];
    let none: Seq<char> = seq![];
    assert("["@ =~= seq!['[']);
    assert("]"@ =~= seq![']']);
    assert(whole =~= "["@ + (inside + "]"@));
    lemma_strip_prefix("["@, inside + "]"@);
    let rest = inside + "]"@;
    assert("]"@.is_suffix_of(rest)) by {
        assert(rest.subrange(rest.len() - 1, rest.len() as int) =~= "]"@);
    }
    assert(rest.take(rest.len() - 1) =~= inside);
    text::law_trim_finds_what_was_padded(none, whole, none);
    assert(none + whole + none =~= whole);
}

#[verifier::rlimit(40)]
proof fn lemma_one_side(side: Seq<char>, n: nat)
    requires
        side == "ahead"@ || side == "behind"@,
        n <= u32::MAX,
    ensures
        text::split_once(side + seq![' '] + text::decimal(n), ' ') == Some(
            (side, text::decimal(n)),
        ),
        text::number(text::decimal(n), u32::MAX as nat) == Some(n),
        forall|i: int| 0 <= i < (side + seq![' '] + text::decimal(n)).len() ==> #[trigger] (side
            + seq![' '] + text::decimal(n))[i] != ',',
{
    reveal_strlit("ahead");
    reveal_strlit("behind");
    text::law_decimal_reads_back(n, n, u32::MAX as nat);
    assert(text::lacks(side, ' '));
    text::law_split_at_the_first(side, ' ', text::decimal(n));
    let whole = side + seq![' '] + text::decimal(n);
    assert forall|i: int| 0 <= i < whole.len() implies #[trigger] whole[i] != ',' by {
        if i < side.len() {
            assert(whole[i] == side[i]);
        } else if i > side.len() {
            assert(whole[i] == text::decimal(n)[i - side.len() - 1]);
        }
    }
}

proof fn lemma_no_comma(s: Seq<char>)
    requires
        forall|i: int| 0 <= i < s.len() ==> #[trigger] s[i] != ',',
    ensures
        text::split_text(s, ", "@) == seq![s],
{
    reveal_strlit(", ");
    text::law_found_at_the_first(s, ", "@);
    match text::find_text(s, ", "@) {
        Some(at) => {
            assert(", "@[0] == ',');
            assert(s[at + 0] == ", "@[0]);
        },
        None => {},
    }
}

proof fn lemma_two_parts(a: Seq<char>, b: Seq<char>)
    requires
        forall|i: int| 0 <= i < a.len() ==> #[trigger] a[i] != ',',
        forall|i: int| 0 <= i < b.len() ==> #[trigger] b[i] != ',',
    ensures
        text::split_text(a + ", "@ + b, ", "@) == seq![a, b],
{
    reveal_strlit(", ");
    let both = a + ", "@ + b;
    let end = a.len() as int;
    lemma_no_comma(b);
    text::law_found_at_the_first(both, ", "@);
    assert(both.subrange(end, end + ", "@.len()) =~= ", "@);
    match text::find_text(both, ", "@) {
        Some(at) => {
            assert(both[at + 0] == ", "@[0]);
            if at < end {
                assert(both[at] == a[at]);
            } else if at > end {
                assert(text::occurs_at(both, ", "@, end));
            }
            assert(at == end);
        },
        None => {},
    }
    assert(both.take(end) =~= a);
    assert(both.skip(end + 2) =~= b);
    assert(text::split_text(both, ", "@) =~= seq![a, b]);
}

/// A part that names a side and a count behind other parts counts on that side.
proof fn lemma_side_counted(front: Seq<Seq<char>>, side: Seq<char>, n: nat)
    requires
        side == "ahead"@ || side == "behind"@,
        n <= u32::MAX,
        sides(front) is Some,
    ensures
        side == "ahead"@ ==> sides(front.push(side + seq![' '] + text::decimal(n))) == Some(
            (n, sides(front)->Some_0.1),
        ),
        side == "behind"@ ==> sides(front.push(side + seq![' '] + text::decimal(n))) == Some(
            (sides(front)->Some_0.0, n),
        ),
{
    let part = side + seq![' '] + text::decimal(n);
    lemma_one_side(side, n);
    lemma_side_words();
    assert(front.push(part).drop_last() =~= front);
    assert(front.push(part).last() == part);
}

proof fn lemma_side_words()
    ensures
        "behind"@ != "ahead"@,
        "ahead"@.len() > 0 && "ahead"@[0] == 'a',
        "behind"@.len() > 0 && "behind"@[0] == 'b',
        "gone"@[0] == 'g',
{
    reveal_strlit("ahead");
    reveal_strlit("behind");
    reveal_strlit("gone");
    assert("ahead"@[0] == 'a' && "behind"@[0] == 'b');
}

/// A field between brackets stands for what its parts count.
proof fn lemma_counted_field(inside: Seq<char>, parts: Seq<Seq<char>>, ahead: nat, behind: nat)
    requires
        inside != "gone"@,
        text::split_text(inside, ", "@) == parts,
        sides(parts) == Some((ahead, behind)),
    ensures
        track_field(seq!['['] + inside + seq![']']) == track_of_counts(ahead, behind),
{
    lemma_bracketed(inside);
}

/// The parts of a field that names one side, and what they count.
proof fn lemma_one_part(side: Seq<char>, n: nat)
    requires
        side == "ahead"@ || side == "behind"@,
        n <= u32::MAX,
    ensures
        ({
            let inside = side + seq![' '] + text::decimal(n);
            &&& inside != "gone"@
            &&& text::split_text(inside, ", "@) == seq![inside]
            &&& side == "ahead"@ ==> sides(seq![inside]) == Some((n, 0nat))
            &&& side == "behind"@ ==> sides(seq![inside]) == Some((0nat, n))
        }),
{
    let inside = side + seq![' '] + text::decimal(n);
    let none = Seq::<Seq<char>>::empty();
    assert(text::split_text(inside, ", "@) == seq![inside]) by {
        lemma_one_side(side, n);
        lemma_no_comma(inside);
    }
    assert(inside != "gone"@) by {
        lemma_side_words();
        assert(inside[0] == side[0]);
    }
    lemma_side_counted(none, side, n);
    assert(none.push(inside) =~= seq![inside]);
}

/// A branch that git says is ahead stands so by just as many commits.
pub proof fn law_ahead_is_what_git_counted(n: nat)
    requires
        0 < n <= u32::MAX,
    ensures
        track_field(seq!['['] + ("ahead"@ + seq![' '] + text::decimal(n)) + seq![']']) == Some(
            Track::Ahead(n as u32),
        ),
{
    let a = "ahead"@ + seq![' '] + text::decimal(n);
    lemma_one_part("ahead"@, n);
    lemma_counted_field(a, seq![a], n, 0);
}

/// A branch that git says is behind stands so by just as many commits.
pub proof fn law_behind_is_what_git_counted(n: nat)
    requires
        0 < n <= u32::MAX,
    ensures
        track_field(seq!['['] + ("behind"@ + seq![' '] + text::decimal(n)) + seq![']']) == Some(
            Track::Behind(n as u32),
        ),
{
    let b = "behind"@ + seq![' '] + text::decimal(n);
    lemma_one_part("behind"@, n);
    lemma_counted_field(b, seq![b], 0, n);
}

/// A branch that git says is ahead and behind stands so by just as many commits on each side.
pub proof fn law_diverged_is_what_git_counted(ahead: nat, behind: nat)
    requires
        0 < ahead <= u32::MAX,
        0 < behind <= u32::MAX,
    ensures
        track_field(
            seq!['['] + ("ahead"@ + seq![' '] + text::decimal(ahead) + ", "@ + ("behind"@ + seq![
                ' ',
            ] + text::decimal(behind))) + seq![']'],
        ) == Some(Track::Diverged { ahead: ahead as u32, behind: behind as u32 }),
{
    let a = "ahead"@ + seq![' '] + text::decimal(ahead);
    let b = "behind"@ + seq![' '] + text::decimal(behind);
    let both = a + ", "@ + b;
    assert(text::split_text(both, ", "@) == seq![a, b]) by {
        lemma_one_side("ahead"@, ahead);
        lemma_one_side("behind"@, behind);
        lemma_two_parts(a, b);
    }
    assert(both != "gone"@) by {
        lemma_side_words();
        assert(both[0] == "ahead"@[0]);
    }
    assert(sides(seq![a, b]) == Some((ahead, behind))) by {
        lemma_one_part("ahead"@, ahead);
        lemma_side_counted(seq![a], "behind"@, behind);
        lemma_side_words();
        assert(seq![a].push(b) =~= seq![a, b]);
    }
    lemma_counted_field(both, seq![a, b], ahead, behind);
}

/// A branch that git says is gone has nothing to stand to, and a field that is empty or white space
/// says nothing.
pub proof fn law_gone_is_gone(white: Seq<char>)
    requires
        forall|i: int| 0 <= i < white.len() ==> text::is_white(#[trigger] white[i]),
    ensures
        track_field(seq!['['] + "gone"@ + seq![']']) == Some(Track::Gone),
        track_field(white) is None,
{
    lemma_bracketed("gone"@);
    let (a, b) = text::law_trim_takes_white_space_alone(white);
}

/// A text that neither starts nor ends in white space is left as it is.
proof fn lemma_nothing_to_trim(s: Seq<char>)
    requires
        s.len() > 0 && !text::is_white(s[0]) && !text::is_white(s.last()),
    ensures
        text::trim(s) == s,
{
    let none: Seq<char> = seq![];
    text::law_trim_finds_what_was_padded(none, s, none);
    assert(none + s + none =~= s);
}

/// A pattern that stands nowhere before its place is found there.
proof fn lemma_found_there(front: Seq<char>, pattern: Seq<char>, back: Seq<char>)
    requires
        forall|at: int|
            0 <= at < front.len() ==> !(#[trigger] text::occurs_at(
                front + pattern + back,
                pattern,
                at,
            )),
    ensures
        text::find_text(front + pattern + back, pattern) == Some(front.len() as int),
{
    let whole = front + pattern + back;
    let at = front.len() as int;
    assert(whole.subrange(at, at + pattern.len()) =~= pattern);
    assert(text::occurs_at(whole, pattern, at));
    text::law_found_at_the_first(whole, pattern);
    match text::find_text(whole, pattern) {
        Some(found) => {
            assert(whole.subrange(found, found + pattern.len()) =~= pattern);
            assert(text::occurs_at(whole, pattern, found));
        },
        None => {},
    }
}

/// One separator in front of a text that starts with none is cut off.
proof fn lemma_one_separator(separator: char, rest: Seq<char>)
    requires
        separator == ':' || separator == '/',
        rest.len() > 0 && rest[0] != ':' && rest[0] != '/',
    ensures
        text::trim_front(seq![separator] + rest, |c: char| c == ':' || c == '/') == rest,
{
    let behind = seq![separator] + rest;
    assert(behind[0] == separator);
    assert(behind.skip(1) =~= rest);
    reveal_with_fuel(text::trim_front, 3);
}

proof fn lemma_path_behind_host(front: Seq<char>, separator: char, rest: Seq<char>)
    requires
        separator == ':' || separator == '/',
        front.len() == 0 || !text::is_white(front[0]),
        rest.len() > 0 && rest[0] != ':' && rest[0] != '/' && !text::is_white(rest.last()),
        forall|at: int|
            0 <= at < front.len() ==> !(#[trigger] text::occurs_at(
                front + "github.com"@ + (seq![separator] + rest),
                "github.com"@,
                at,
            )),
    ensures
        url_path(front + "github.com"@ + (seq![separator] + rest)) == Some(
            text::trim_end_text(text::trim_end_char(rest, '/'), ".git"@),
        ),
{
    let host = "github.com"@;
    let behind = seq![separator] + rest;
    let url = front + host + behind;
    assert(text::trim(url) == url) by {
        reveal_strlit("github.com");
        assert(host.len() > 0 && host[0] == 'g');
        assert(url[0] == if front.len() == 0 {
            'g'
        } else {
            front[0]
        });
        assert(url.last() == rest.last());
        lemma_nothing_to_trim(url);
    }
    lemma_found_there(front, host, behind);
    assert(url.skip(front.len() as int + host.len()) =~= behind);
    lemma_one_separator(separator, rest);
}

proof fn lemma_without_git(owner: Seq<char>, repo: Seq<char>)
    requires
        is_half(repo),
    ensures
        text::trim_end_text(owner + seq!['/'] + repo, ".git"@) == owner + seq!['/'] + repo,
        text::trim_end_text(owner + seq!['/'] + repo + ".git"@, ".git"@) == owner + seq!['/']
            + repo,
{
    reveal_strlit(".git");
    let git = ".git"@;
    let path = owner + seq!['/'] + repo;
    let n = path.len() as int;
    assert(!git.is_suffix_of(path)) by {
        if git.is_suffix_of(path) {
            let end = path.subrange(n - 4, n);
            assert(end == git);
            if repo.len() >= 4 {
                assert(repo.subrange(repo.len() - 4, repo.len() as int) =~= end);
                assert(git.is_suffix_of(repo));
            } else {
                let k = 3 - repo.len();
                assert(end[k] == '/');
                assert(git[k] != '/');
            }
        }
    }
    let rest = path + git;
    assert(git.is_suffix_of(rest)) by {
        assert(rest.subrange(n, n + 4) =~= git);
    }
    assert(rest.take(rest.len() - git.len()) =~= path);
    assert(text::trim_end_text(path, git) == path);
    assert(text::trim_end_text(rest, git) == text::trim_end_text(path, git));
}

proof fn lemma_path_of_url(front: Seq<char>, separator: char, owner: Seq<char>, repo: Seq<char>, end: Seq<char>)
    requires
        separator == ':' || separator == '/',
        front.len() == 0 || !text::is_white(front[0]),
        forall|at: int|
            0 <= at < front.len() ==> !(#[trigger] text::occurs_at(
                front + "github.com"@ + seq![separator] + owner + seq!['/'] + repo + end,
                "github.com"@,
                at,
            )),
        end.len() == 0 || end == ".git"@,
        is_half(owner) && is_half(repo),
    ensures
        url_path(front + "github.com"@ + seq![separator] + owner + seq!['/'] + repo + end) == Some(
            owner + seq!['/'] + repo,
        ),
{
    let path = owner + seq!['/'] + repo;
    let rest = path + end;
    let host = front + "github.com"@;
    assert(host + seq![separator] + owner + seq!['/'] + repo + end =~= host + (seq![separator]
        + rest));
    assert(rest[0] == owner[0]);
    assert(end.len() > 0 ==> end.last() == 't' && end.len() == 4) by {
        reveal_strlit(".git");
    }
    assert(rest.last() == if end.len() == 0 {
        repo.last()
    } else {
        't'
    });
    lemma_path_behind_host(front, separator, rest);
    lemma_without_git(owner, repo);
    assert(text::trim_end_char(rest, '/') == rest);
    if end.len() == 0 {
        assert(rest =~= path);
    }
}

/// Whether a text can be the owner or the name in a URL as it stands there: it holds nothing that
/// ends it, and does not end in `.git` itself.
pub open spec fn is_half(text: Seq<char>) -> bool {
    &&& text.len() > 0
    &&& text::lacks(text, '/')
    &&& text[0] != ':'
    &&& !text::is_white(text.last())
    &&& !".git"@.is_suffix_of(text)
}

/// A repository on GitHub is called by its owner and its name, whichever way its URL is written,
/// with `.git` at the end or without.
pub proof fn law_url_names_owner_and_repository(owner: Seq<char>, repo: Seq<char>)
    requires
        is_half(owner),
        is_half(repo),
    ensures
        url_slug("https://"@ + "github.com"@ + seq!['/'] + owner + seq!['/'] + repo + ".git"@)
            == Some(owner + "/"@ + repo),
        url_slug("https://"@ + "github.com"@ + seq!['/'] + owner + seq!['/'] + repo + seq![])
            == Some(owner + "/"@ + repo),
        url_slug("git@"@ + "github.com"@ + seq![':'] + owner + seq!['/'] + repo + ".git"@) == Some(
            owner + "/"@ + repo,
        ),
{
    lemma_https_first(seq!['/'] + owner + seq!['/'] + repo + ".git"@);
    lemma_https_first(seq!['/'] + owner + seq!['/'] + repo + seq![]);
    lemma_scp_first(seq![':'] + owner + seq!['/'] + repo + ".git"@);
    let none: Seq<char> = seq![];
    let https = "https://"@ + "github.com"@;
    let scp = "git@"@ + "github.com"@;
    assert(https + (seq!['/'] + owner + seq!['/'] + repo + ".git"@) =~= https + seq!['/'] + owner
        + seq!['/'] + repo + ".git"@);
    assert(https + (seq!['/'] + owner + seq!['/'] + repo + none) =~= https + seq!['/'] + owner
        + seq!['/'] + repo + none);
    assert(scp + (seq![':'] + owner + seq!['/'] + repo + ".git"@) =~= scp + seq![':'] + owner + seq![
        '/',
    ] + repo + ".git"@);
    assert(!text::is_white("https://"@[0]) && !text::is_white("git@"@[0])) by {
        reveal_strlit("https://");
        reveal_strlit("git@");
    }
    lemma_path_of_url("https://"@, '/', owner, repo, ".git"@);
    lemma_path_of_url("https://"@, '/', owner, repo, none);
    lemma_path_of_url("git@"@, ':', owner, repo, ".git"@);
    text::law_split_at_the_first(owner, '/', repo);
    text::lemma_find_is(owner, '/', owner.len() as int);
    text::lemma_find_is(repo, '/', repo.len() as int);
}

proof fn lemma_https_first(rest: Seq<char>)
    ensures
        forall|at: int|
            0 <= at < "https://"@.len() ==> !(#[trigger] text::occurs_at(
                "https://"@ + "github.com"@ + rest,
                "github.com"@,
                at,
            )),
{
    reveal_strlit("https://");
    reveal_strlit("github.com");
    let url = "https://"@ + "github.com"@ + rest;
    assert forall|at: int| 0 <= at < "https://"@.len() implies !(#[trigger] text::occurs_at(
        url,
        "github.com"@,
        at,
    )) by {
        if text::occurs_at(url, "github.com"@, at) {
            assert(url.subrange(at, at + 10)[0] == "github.com"@[0]);
            assert(url[at] == "https://"@[at]);
        }
    }
}

proof fn lemma_scp_first(rest: Seq<char>)
    ensures
        forall|at: int|
            0 <= at < "git@"@.len() ==> !(#[trigger] text::occurs_at(
                "git@"@ + "github.com"@ + rest,
                "github.com"@,
                at,
            )),
{
    reveal_strlit("git@");
    reveal_strlit("github.com");
    let url = "git@"@ + "github.com"@ + rest;
    assert forall|at: int| 0 <= at < "git@"@.len() implies !(#[trigger] text::occurs_at(
        url,
        "github.com"@,
        at,
    )) by {
        if text::occurs_at(url, "github.com"@, at) {
            assert(url.subrange(at, at + 10)[0] == "github.com"@[0]);
            assert(url.subrange(at, at + 10)[3] == "github.com"@[3]);
            assert(url[at] == "git@"@[at]);
        }
    }
}

/// A URL that does not name GitHub's host names no repository there.
pub proof fn law_other_hosts_name_none(url: Seq<char>)
    requires
        forall|at: int| !(#[trigger] text::occurs_at(url, "github.com"@, at)),
    ensures
        url_slug(url) is None,
{
    let (a, b) = text::law_trim_takes_white_space_alone(url);
    let said = text::trim(url);
    text::law_found_at_the_first(said, "github.com"@);
    match text::find_text(said, "github.com"@) {
        Some(at) => {
            let host = "github.com"@;
            assert(url.subrange(a + at, a + at + host.len()) =~= host) by {
                assert forall|i: int| 0 <= i < host.len() implies url[a + at + i] == host[i] by {
                    assert(said[at + i] == host[i]);
                }
            }
            assert(text::occurs_at(url, host, a + at));
        },
        None => {},
    }
}

/// A git that refused is told in its own words without the white space round them, and by the call
/// behind them; one that said nothing is told as such, and one that could not be started by why.
pub proof fn law_refusal_says_what_git_said(
    args: Seq<Seq<char>>,
    front: Seq<char>,
    words: Seq<char>,
    back: Seq<char>,
    error: Seq<char>,
)
    requires
        forall|i: int| 0 <= i < front.len() ==> text::is_white(#[trigger] front[i]),
        forall|i: int| 0 <= i < back.len() ==> text::is_white(#[trigger] back[i]),
        words.len() > 0 && !text::is_white(words[0]) && !text::is_white(words.last()),
    ensures
        refusal_words(args, front + words + back) == words + " (`git "@ + text::join(args, " "@)
            + "`)"@,
        refusal_words(args, front) == "git said nothing"@ + " (`git "@ + text::join(args, " "@)
            + "`)"@,
        said(args, Err(error)) == Err::<Option<SaidView>, Seq<char>>(
            refusal_words(args, "git could not be run: "@ + error),
        ),
{
    text::law_trim_finds_what_was_padded(front, words, back);
    text::law_trim_finds_what_was_padded(front, seq![], seq![]);
    assert(front + seq![] + seq![] =~= front);
}

/// A git that gave up for good and said that there is no repository, or no such directory, found
/// none. Every other bad end is a refusal, in its words and for its call; and where a repository
/// was expected, finding none is a failure that names the directory.
pub proof fn law_bad_end_is_a_refusal(args: Seq<Seq<char>>, dir: Seq<char>, output: OutputView)
    requires
        output.code != Some(0i32),
    ensures
        ({
            let stderr = lossy(output.stderr);
            let none = output.code == Some(128i32) && (text::contains(
                stderr,
                "not a git repository"@,
            ) || text::contains(stderr, "cannot change to"@));
            &&& none ==> said(args, Ok(output)) == Ok::<Option<SaidView>, Seq<char>>(None)
                && said_in_repo(dir, args, Ok(output)) == Err::<SaidView, Seq<char>>(
                dir + " is not a git repository, but was expected to be"@,
            )
            &&& !none ==> said(args, Ok(output)) == Err::<Option<SaidView>, Seq<char>>(
                refusal_words(args, stderr),
            ) && said_in_repo(dir, args, Ok(output)) == Err::<SaidView, Seq<char>>(
                refusal_words(args, stderr),
            )
        }),
{
}

/// The remote's URL counts only where git ended well. A repository without that remote has no name
/// on GitHub, and any other bad end is a refusal.
pub proof fn law_only_a_missing_remote_names_none(code: Option<i32>, said: SaidView)
    ensures
        code == Some(0i32) ==> slug_answered(code, said) == Ok::<Option<Seq<char>>, Seq<char>>(
            url_slug(said.stdout),
        ),
        code == Some(2i32) && text::contains(said.stderr, "No such remote"@) ==> slug_answered(
            code,
            said,
        ) == Ok::<Option<Seq<char>>, Seq<char>>(None),
        code != Some(0i32) && !(code == Some(2i32) && text::contains(
            said.stderr,
            "No such remote"@,
        )) ==> slug_answered(code, said) == Err::<Option<Seq<char>>, Seq<char>>(
            refusal_words(seq!["remote"@, "get-url"@, "origin"@], said.stderr),
        ),
{
}

/// A track field without brackets round it says something that cannot be read, and one of white
/// space alone says nothing.
pub proof fn law_track_without_brackets_is_unreadable(field: Seq<char>)
    requires
        field.len() > 0,
        !text::is_white(field[0]) && !text::is_white(field.last()),
        field[0] != '[' || field.last() != ']',
    ensures
        track_field(field) == Some(Track::Unreadable),
        track_field(seq![' ']) is None,
        track_field(seq![]) is None,
{
    let none = Seq::<char>::empty();
    assert(text::trim(field) == field) by {
        text::law_trim_finds_what_was_padded(none, field, none);
        assert(none + field + none =~= field);
    }
    lemma_not_bracketed(field);
    assert(text::trim(seq![' ']).len() == 0) by {
        text::law_white_space_is_what_shows_nothing(' ');
        text::law_trim_finds_what_was_padded(seq![' '], none, none);
        assert(seq![' '] + none + none =~= seq![' ']);
    }
    assert(text::trim(none).len() == 0) by {
        text::law_trim_finds_what_was_padded(none, none, none);
        assert(none + none + none =~= none);
    }
}

proof fn lemma_not_bracketed(field: Seq<char>)
    requires
        field.len() > 0,
        field[0] != '[' || field.last() != ']',
    ensures
        bracketed(field) is None,
{
    reveal_strlit("[");
    reveal_strlit("]");
    if "["@.is_prefix_of(field) {
        let rest = field.skip(1);
        assert(field.subrange(0, 1)[0] == "["@[0]);
        if "]"@.is_suffix_of(rest) {
            assert(rest.subrange(rest.len() - 1, rest.len() as int)[0] == "]"@[0]);
            assert(rest.last() == field.last());
        }
    }
}

/// Where git names no upstream and says nothing of one, a branch stands as it does to where it is
/// pushed, unless that is gone.
pub proof fn law_without_upstream_the_push_side_counts(
    upstream_track: Seq<char>,
    push_track: Seq<char>,
)
    requires
        track_field(upstream_track) is None,
    ensures
        track_field(push_track) != Some(Track::Gone) ==> branch_track(
            false,
            upstream_track,
            push_track,
        ) == track_field(push_track),
        track_field(push_track) == Some(Track::Gone) ==> branch_track(
            false,
            upstream_track,
            push_track,
        ) is None,
{
}

/// A line with no second field names no ref, and one with no more than a ref and a date has nothing
/// else. A date before 1970 is read as such, and one that is no number is not known.
pub proof fn law_short_line_says_what_it_has(refname: Seq<char>, date: Seq<char>, seconds: nat)
    requires
        text::lacks(refname, '\t'),
        text::lacks(date, '\t'),
        seconds <= i64::MAX,
    ensures
        ref_of_line(refname) is None,
        branch_of(refname) matches Some((name, kind)) ==> ref_of_line(
            refname + seq!['\t'] + date,
        ) == Some(
            GitRefView {
                name,
                kind,
                committed_at: match text::signed_number(date) {
                    Some(n) => Some(n as i64),
                    None => None,
                },
                subject: None,
                upstream: None,
                track: None,
                worktree_path: None,
            },
        ),
        text::signed_number(text::decimal(seconds)) == Some(seconds as int),
        text::signed_number(seq!['-'] + text::decimal(seconds)) == Some(-(seconds as int)),
        text::signed_number(seq![]) is None,
{
    text::law_split_at_the_first(refname, '\t', date);
    assert(text::split_once(refname, '\t') is None);
    assert(text::split_at_most(refname, '\t', 7) == seq![refname]);
    let line = refname + seq!['\t'] + date;
    text::law_split_at_the_first(date, '\t', seq![]);
    assert(text::split_once(date, '\t') is None);
    assert(text::split_at_most(date, '\t', 6) == seq![date]);
    assert(text::split_at_most(line, '\t', 7) =~= seq![refname, date]);
    let none = Seq::<char>::empty();
    text::law_trim_finds_what_was_padded(none, none, none);
    assert(none + none + none =~= none);
    assert(track_field(none) is None);
    text::law_decimal_reads_back(seconds, seconds, 0x7fff_ffff_ffff_ffff);
    text::lemma_decimal(seconds);
    let digits = text::decimal(seconds);
    assert(text::is_digit(digits[0]));
    assert((seq!['-'] + digits).skip(1) =~= digits);
}

/// Where git says that a directory is comes out as it said it: its two lines, that there is no
/// repository, or its refusal; and so does the branch that is out there. Git is put every call in
/// the directory that it is about, and to speak the words that are read here.
pub proof fn law_what_git_said_comes_out(
    said: SaidView,
    words: Seq<char>,
    dir: Seq<char>,
    args: Seq<Seq<char>>,
)
    ensures
        two_paths(Ok(Some(said))) == Ok::<Option<(Seq<char>, Seq<char>)>, Seq<char>>(
            first_two(said.stdout),
        ),
        two_paths(Ok(None)) == Ok::<Option<(Seq<char>, Seq<char>)>, Seq<char>>(None),
        two_paths(Err(words)) == Err::<Option<(Seq<char>, Seq<char>)>, Seq<char>>(words),
        named_branch(Some(said)) == branch_said(said.stdout),
        named_branch(None) is None,
        git_locale() == ("LC_ALL"@, "C"@),
        git_command(dir, args).program == "git"@,
        git_command(dir, args).args.len() == args.len() + 2,
        git_command(dir, args).args[0] == "-C"@,
        git_command(dir, args).args[1] == dir,
        git_command(dir, args).args.skip(2) == args,
        git_command(dir, args).envs == seq![("LC_ALL"@, "C"@)],
{
    assert(git_command(dir, args).args.skip(2) =~= args);
}

/// A line of a warning is kept without the white space round it, a line that opens otherwise is
/// not, and lines are looked at one by one and keep their order.
pub proof fn law_warnings_are_kept_in_order(
    first: Seq<Seq<char>>,
    second: Seq<Seq<char>>,
    line: Seq<char>,
    openings: Seq<Seq<char>>,
)
    ensures
        warnings(first + second, openings) == warnings(first, openings) + warnings(
            second,
            openings,
        ),
        (exists|i: int|
            0 <= i < openings.len() && #[trigger] openings[i].is_prefix_of(text::trim(line)))
            ==> warnings(seq![line], openings) == seq![text::trim(line)],
        (forall|i: int|
            0 <= i < openings.len() ==> !(#[trigger] openings[i].is_prefix_of(text::trim(line))))
            ==> warnings(seq![line], openings).len() == 0,
        forall|stderr: Seq<char>|
            warnings(text::lines(stderr), openings).len() > 0 ==> #[trigger] warned(
                stderr,
                openings,
            ) == Some(text::join(warnings(text::lines(stderr), openings), " "@)),
{
    lemma_warnings_joined(first, second, openings);
    assert(seq![line].drop_last() =~= seq![]);
    assert(warnings(seq![line].drop_last(), openings) == Seq::<Seq<char>>::empty());
    assert(seq![line].last() == line);
}

proof fn lemma_warnings_joined(
    first: Seq<Seq<char>>,
    second: Seq<Seq<char>>,
    openings: Seq<Seq<char>>,
)
    ensures
        warnings(first + second, openings) == warnings(first, openings) + warnings(
            second,
            openings,
        ),
    decreases second.len(),
{
    let both = first + second;
    if second.len() == 0 {
        assert(both =~= first);
        assert(warnings(first, openings) + warnings(second, openings) =~= warnings(
            first,
            openings,
        ));
    } else {
        lemma_warnings_joined(first, second.drop_last(), openings);
        assert(both.drop_last() =~= first + second.drop_last());
        assert(both.last() == second.last());
        assert(warnings(both, openings) =~= warnings(first, openings) + warnings(
            second,
            openings,
        ));
    }
}

} // verus!
