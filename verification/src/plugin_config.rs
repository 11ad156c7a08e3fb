//! The plugin's own configuration file: where it is looked for, and what is made of it.

use vstd::prelude::*;

use crate::shapes;
use crate::text;
use crate::text::{chars_of, starts, wide_decimal_text};

verus! {

/// The name that herdr knows the plugin by.
pub open spec fn plugin_id() -> Seq<char> {
    "herdr-worktree-nav"@
}

/// What the file says of the panes picker.
#[derive(Debug, Clone, Copy, PartialEq, Eq, Structural)]
pub struct Panes {
    pub show_worktrees_without_panes: bool,
}

/// What the file says.
#[derive(Debug, Clone, Copy, PartialEq, Eq, Structural)]
pub struct Settings {
    pub panes: Panes,
}

/// The settings of a file that says nothing.
pub open spec fn default_settings() -> Settings {
    Settings { panes: Panes { show_worktrees_without_panes: true } }
}

impl Default for Settings {
    fn default() -> (settings: Settings)
        ensures
            settings == default_settings(),
    {
        Settings { panes: Panes { show_worktrees_without_panes: true } }
    }
}

/// The settings in force, what is wrong with the file, and where it is.
#[derive(Debug, Clone, PartialEq, Eq)]
pub struct Loaded {
    pub settings: Settings,
    pub complaint: Option<String>,
    pub path: Option<String>,
}

#[verifier::ext_equal]
pub struct LoadedView {
    pub settings: Settings,
    pub complaint: Option<Seq<char>>,
    pub path: Option<Seq<char>>,
}

impl View for Loaded {
    type V = LoadedView;

    open spec fn view(&self) -> LoadedView {
        LoadedView {
            settings: self.settings,
            complaint: shapes::opt(self.complaint),
            path: shapes::opt(self.path),
        }
    }
}

/// Why a file's text is not the settings: the parser's reason, and the byte it speaks of.
#[derive(Debug, Clone, PartialEq, Eq)]
pub struct Invalid {
    pub reason: String,
    pub start: Option<usize>,
}

/// What came of reading the file.
pub enum FileRead {
    /// There is no such file.
    NotFound,
    /// It could not be read, for this reason.
    Failed(String),
    /// Its text, and the settings or the reason why it holds none.
    Parsed(String, Result<Settings, Invalid>),
}

/// The line feeds among the bytes.
pub open spec fn line_feeds(bytes: Seq<u8>) -> nat
    decreases bytes.len(),
{
    if bytes.len() == 0 {
        0
    } else {
        line_feeds(bytes.drop_last()) + if bytes.last() == 10 {
            1nat
        } else {
            0nat
        }
    }
}

proof fn lemma_line_feeds(bytes: Seq<u8>)
    ensures
        line_feeds(bytes) <= bytes.len(),
    decreases bytes.len(),
{
    if bytes.len() > 0 {
        lemma_line_feeds(bytes.drop_last());
    }
}

/// What the prompt line says of an invalid file: the reason, and before it the line it speaks of
/// where there is one. A field that is not known names itself and needs no line.
pub open spec fn invalid_text(
    contents: Seq<char>,
    reason: Seq<char>,
    start: Option<usize>,
) -> Seq<char> {
    let bytes = vstd::utf8::encode_utf8(contents);
    if "unknown field"@.is_prefix_of(reason) {
        "plugin config.toml: "@ + reason
    } else {
        match start {
            Some(at) => if vstd::utf8::is_char_boundary(bytes, at as int) {
                "plugin config.toml: line "@ + text::decimal(
                    1 + line_feeds(bytes.take(at as int)),
                ) + ": "@ + reason
            } else {
                "plugin config.toml: "@ + reason
            },
            None => "plugin config.toml: "@ + reason,
        }
    }
}

/// The line feeds among the first `end` bytes.
fn count_line_feeds(bytes: &[u8], end: usize) -> (n: usize)
    requires
        end <= bytes@.len(),
    ensures
        n == line_feeds(bytes@.take(end as int)),
{
    let mut n: usize = 0;
    let mut i: usize = 0;
    while i < end
        invariant
            i <= end <= bytes@.len(),
            n == line_feeds(bytes@.take(i as int)),
            n <= i,
        decreases end - i,
    {
        assert(bytes@.take(i + 1).drop_last() =~= bytes@.take(i as int));
        if bytes[i] == 10 {
            n = n + 1;
        }
        i = i + 1;
    }
    n
}

/// What the prompt line says of an invalid file.
pub fn format_invalid(contents: &str, error: &Invalid) -> (out: String)
    ensures
        out@ == invalid_text(contents@, error.reason@, error.start),
{
    let reason = chars_of(error.reason.as_str());
    let mut out = "plugin config.toml: ".to_owned();
    proof {
        vstd::utf8::encode_utf8_valid_utf8(contents@);
    }
    if !starts(reason.as_slice(), "unknown field") {
        match error.start {
            Some(at) => {
                let bytes = contents.as_bytes();
                if at <= bytes.len() && contents.is_char_boundary(at) {
                    let feeds = count_line_feeds(bytes, at);
                    proof {
                        lemma_line_feeds(bytes@.take(at as int));
                    }
                    let mut line = "plugin config.toml: line ".to_owned();
                    line.append(wide_decimal_text(feeds as u128 + 1).as_str());
                    line.append(": ");
                    line.append(error.reason.as_str());
                    return line;
                }
            },
            None => {},
        }
    }
    out.append(error.reason.as_str());
    out
}

impl Loaded {
    /// No file: the settings of one that says nothing.
    fn missing() -> (loaded: Loaded)
        ensures
            loaded@ == (LoadedView { settings: default_settings(), complaint: None, path: None }),
    {
        Loaded { settings: Settings::default(), complaint: None, path: None }
    }

    fn ok(path: &str, settings: Settings) -> (loaded: Loaded)
        ensures
            loaded@ == (LoadedView { settings, complaint: None, path: Some(path@) }),
    {
        Loaded { settings, complaint: None, path: Some(path.to_owned()) }
    }

    fn unreadable(path: &str, error: &str) -> (loaded: Loaded)
        ensures
            loaded@ == (LoadedView {
                settings: default_settings(),
                complaint: Some("could not read plugin config.toml: "@ + error@),
                path: Some(path@),
            }),
    {
        let mut complaint = "could not read plugin config.toml: ".to_owned();
        complaint.append(error);
        Loaded {
            settings: Settings::default(),
            complaint: Some(complaint),
            path: Some(path.to_owned()),
        }
    }

    fn invalid(path: &str, contents: &str, error: &Invalid) -> (loaded: Loaded)
        ensures
            loaded@ == (LoadedView {
                settings: default_settings(),
                complaint: Some(invalid_text(contents@, error.reason@, error.start)),
                path: Some(path@),
            }),
    {
        Loaded {
            settings: Settings::default(),
            complaint: Some(format_invalid(contents, error)),
            path: Some(path.to_owned()),
        }
    }
}

/// What is made of the file at `path`: its settings, or those of a file that says nothing and
/// what is wrong with this one.
pub fn load_from(path: &str, read: &FileRead) -> (loaded: Loaded)
    ensures
        match *read {
            FileRead::NotFound => loaded@ == (LoadedView {
                settings: default_settings(),
                complaint: None,
                path: None,
            }),
            FileRead::Failed(error) => loaded@ == (LoadedView {
                settings: default_settings(),
                complaint: Some("could not read plugin config.toml: "@ + error@),
                path: Some(path@),
            }),
            FileRead::Parsed(_, Ok(settings)) => loaded@ == (LoadedView {
                settings,
                complaint: None,
                path: Some(path@),
            }),
            FileRead::Parsed(contents, Err(error)) => loaded@ == (LoadedView {
                settings: default_settings(),
                complaint: Some(invalid_text(contents@, error.reason@, error.start)),
                path: Some(path@),
            }),
        },
{
    match read {
        FileRead::NotFound => Loaded::missing(),
        FileRead::Failed(error) => Loaded::unreadable(path, error.as_str()),
        FileRead::Parsed(_, Ok(settings)) => Loaded::ok(path, *settings),
        FileRead::Parsed(contents, Err(error)) => Loaded::invalid(path, contents.as_str(), error),
    }
}

// ---------------------------------------------------------------- where it is

/// The path of `name` in the directory `dir`.
pub open spec fn in_directory(dir: Seq<char>, name: Seq<char>) -> Seq<char> {
    if dir.len() == 0 || dir.last() == '/' {
        dir + name
    } else {
        dir + "/"@ + name
    }
}

/// The path of `name` in the directory `dir`.
pub fn join_path(dir: &str, name: &str) -> (path: String)
    ensures
        path@ == in_directory(dir@, name@),
{
    let cs = chars_of(dir);
    let mut path = dir.to_owned();
    if cs.len() > 0 && cs[cs.len() - 1] != '/' {
        path.append("/");
    }
    path.append(name);
    path
}

/// The file in a directory that holds configuration.
pub open spec fn in_config_root(root: Seq<char>) -> Seq<char> {
    in_directory(
        in_directory(
            in_directory(
                in_directory(in_directory(root, "herdr"@), "plugins"@),
                "config"@,
            ),
            plugin_id(),
        ),
        "config.toml"@,
    )
}

fn config_in_root(root: &str) -> (path: String)
    ensures
        path@ == in_config_root(root@),
{
    let herdr = join_path(root, "herdr");
    let plugins = join_path(herdr.as_str(), "plugins");
    let config = join_path(plugins.as_str(), "config");
    let own = join_path(config.as_str(), "herdr-worktree-nav");
    join_path(own.as_str(), "config.toml")
}

/// Where a file is: at one path, whether it is there or not, or at the first of several that is.
#[derive(Debug, PartialEq, Eq)]
pub enum Sought {
    Given(String),
    FirstOf(Vec<String>),
}

#[verifier::ext_equal]
pub enum SoughtView {
    Given(Seq<char>),
    FirstOf(Seq<Seq<char>>),
}

impl View for Sought {
    type V = SoughtView;

    open spec fn view(&self) -> SoughtView {
        match self {
            Sought::Given(path) => SoughtView::Given(path@),
            Sought::FirstOf(paths) => SoughtView::FirstOf(text::texts(paths@)),
        }
    }
}

/// The paths that two optional directories give.
pub open spec fn path_each(
    xdg: Option<Seq<char>>,
    home: Option<Seq<char>>,
    file_in: spec_fn(Seq<char>) -> Seq<char>,
) -> Seq<Seq<char>> {
    let first = match xdg {
        Some(root) => seq![file_in(root)],
        None => seq![],
    };
    match home {
        Some(home) => first.push(file_in(in_directory(home, ".config"@))),
        None => first,
    }
}

/// Where the plugin's file is: in the directory that herdr names, or in the user's configuration.
pub open spec fn config_sought(
    plugin_dir: Option<Seq<char>>,
    xdg: Option<Seq<char>>,
    home: Option<Seq<char>>,
) -> SoughtView {
    match plugin_dir {
        Some(dir) => SoughtView::Given(in_directory(dir, "config.toml"@)),
        None => SoughtView::FirstOf(
            path_each(xdg, home, |root: Seq<char>| in_config_root(root)),
        ),
    }
}

/// Where the plugin's file is, by the directory that herdr names, that of the user's
/// configuration, and the user's own.
pub fn config_path(
    plugin_dir: &Option<String>,
    xdg: &Option<String>,
    home: &Option<String>,
) -> (sought: Sought)
    ensures
        sought@ == config_sought(
            shapes::opt(*plugin_dir),
            shapes::opt(*xdg),
            shapes::opt(*home),
        ),
{
    match plugin_dir {
        Some(dir) => Sought::Given(join_path(dir.as_str(), "config.toml")),
        None => {
            let mut paths: Vec<String> = Vec::new();
            match xdg {
                Some(root) => {
                    paths.push(config_in_root(root.as_str()));
                },
                None => {},
            }
            match home {
                Some(home) => {
                    paths.push(config_in_root(join_path(home.as_str(), ".config").as_str()));
                },
                None => {},
            }
            assert(text::texts(paths@) =~= path_each(
                shapes::opt(*xdg),
                shapes::opt(*home),
                |root: Seq<char>| in_config_root(root),
            ));
            Sought::FirstOf(paths)
        },
    }
}

/// The first path that is there.
pub open spec fn first_there(paths: Seq<Seq<char>>, there: Seq<bool>) -> Option<Seq<char>>
    decreases paths.len(),
{
    if paths.len() == 0 || there.len() == 0 {
        None
    } else if there[0] {
        Some(paths[0])
    } else {
        first_there(paths.skip(1), there.skip(1))
    }
}

/// The first path that is there.
pub(crate) fn first_found(paths: &Vec<String>, there: &Vec<bool>) -> (path: Option<String>)
    ensures
        shapes::opt(path) == first_there(text::texts(paths@), there@),
{
    let ghost all = text::texts(paths@);
    let mut i: usize = 0;
    assert(all.skip(0) =~= all);
    assert(there@.skip(0) =~= there@);
    while i < paths.len() && i < there.len()
        invariant
            i <= paths@.len(),
            i <= there@.len(),
            all == text::texts(paths@),
            first_there(all.skip(i as int), there@.skip(i as int)) == first_there(all, there@),
        decreases paths@.len() - i,
    {
        assert(all.skip(i as int)[0] == paths@[i as int]@);
        assert(there@.skip(i as int)[0] == there@[i as int]);
        if there[i] {
            return Some(paths[i].clone());
        }
        assert(all.skip(i as int).skip(1) =~= all.skip(i + 1));
        assert(there@.skip(i as int).skip(1) =~= there@.skip(i + 1));
        i = i + 1;
    }
    None
}

/// The path that is taken, from which of several are there.
pub fn taken(sought: &Sought, there: &Vec<bool>) -> (path: Option<String>)
    ensures
        shapes::opt(path) == match sought@ {
            SoughtView::Given(path) => Some(path),
            SoughtView::FirstOf(paths) => first_there(paths, there@),
        },
{
    match sought {
        Sought::Given(path) => Some(path.clone()),
        Sought::FirstOf(paths) => first_found(paths, there),
    }
}

/// What is made of the plugin's file, wherever it was found. None found is one that says nothing.
pub fn load(path: &Option<String>, read: &FileRead) -> (loaded: Loaded)
    ensures
        match (*path, *read) {
            (None, _) => loaded@ == (LoadedView {
                settings: default_settings(),
                complaint: None,
                path: None,
            }),
            (Some(_), FileRead::NotFound) => loaded@ == (LoadedView {
                settings: default_settings(),
                complaint: None,
                path: None,
            }),
            (Some(path), FileRead::Failed(error)) => loaded@ == (LoadedView {
                settings: default_settings(),
                complaint: Some("could not read plugin config.toml: "@ + error@),
                path: Some(path@),
            }),
            (Some(path), FileRead::Parsed(_, Ok(settings))) => loaded@ == (LoadedView {
                settings,
                complaint: None,
                path: Some(path@),
            }),
            (Some(path), FileRead::Parsed(contents, Err(error))) => loaded@ == (LoadedView {
                settings: default_settings(),
                complaint: Some(invalid_text(contents@, error.reason@, error.start)),
                path: Some(path@),
            }),
        },
{
    match path {
        None => Loaded::missing(),
        Some(path) => load_from(path.as_str(), read),
    }
}

// ---------------------------------------------------------------- laws

/// Line feeds are counted one by one, so the line that is told is the one that the byte is on.
pub proof fn law_lines_are_counted_by_their_feeds(first: Seq<u8>, second: Seq<u8>, byte: u8)
    ensures
        line_feeds(first + second) == line_feeds(first) + line_feeds(second),
        line_feeds(seq![byte]) == if byte == 10 {
            1nat
        } else {
            0nat
        },
        line_feeds(seq![]) == 0,
{
    lemma_line_feeds_joined(first, second);
    assert(seq![byte].drop_last() =~= seq![]);
    assert(line_feeds(seq![byte].drop_last()) == 0);
    assert(seq![byte].last() == byte);
}

proof fn lemma_line_feeds_joined(first: Seq<u8>, second: Seq<u8>)
    ensures
        line_feeds(first + second) == line_feeds(first) + line_feeds(second),
    decreases second.len(),
{
    let both = first + second;
    if second.len() == 0 {
        assert(both =~= first);
    } else {
        lemma_line_feeds_joined(first, second.drop_last());
        assert(both.drop_last() =~= first + second.drop_last());
        assert(both.last() == second.last());
    }
}

/// What is wrong with a file is told in the words of its parser, whole. The line stands before
/// them where the parser named a byte that a character begins at, but not where they name a field
/// that is not known.
pub proof fn law_invalid_file_is_told_with_its_line(
    contents: Seq<char>,
    reason: Seq<char>,
    at: usize,
)
    ensures
        invalid_text(contents, reason, None) == "plugin config.toml: "@ + reason,
        invalid_text(contents, "unknown field"@ + reason, Some(at)) == "plugin config.toml: "@ + (
        "unknown field"@ + reason),
        !"unknown field"@.is_prefix_of(reason) && vstd::utf8::is_char_boundary(
            vstd::utf8::encode_utf8(contents),
            at as int,
        ) ==> invalid_text(contents, reason, Some(at)) == "plugin config.toml: line "@
            + text::decimal(
            1 + line_feeds(vstd::utf8::encode_utf8(contents).take(at as int)),
        ) + ": "@ + reason,
        !vstd::utf8::is_char_boundary(vstd::utf8::encode_utf8(contents), at as int)
            ==> invalid_text(contents, reason, Some(at)) == "plugin config.toml: "@ + reason,
{
    assert("unknown field"@.is_prefix_of("unknown field"@ + reason)) by {
        assert(("unknown field"@ + reason).subrange(0, "unknown field"@.len() as int)
            =~= "unknown field"@);
    }
}

/// A name is put behind its directory with one slash between the two, and a directory that ends in
/// a slash has it already.
pub proof fn law_one_slash_parts_a_name(dir: Seq<char>, name: Seq<char>)
    requires
        dir.len() > 0,
    ensures
        dir.last() != '/' ==> in_directory(dir, name) == dir + seq!['/'] + name,
        dir.last() == '/' ==> in_directory(dir, name) == dir + name,
        in_directory(seq![], name) == name,
{
    reveal_strlit("/");
    assert("/"@ =~= seq!['/']);
    assert(Seq::<char>::empty() + name =~= name);
}

/// The file in a configuration directory is that of this plugin among herdr's own.
pub proof fn law_file_is_among_those_of_herdr(root: Seq<char>)
    requires
        root.len() > 0,
        root.last() != '/',
    ensures
        in_config_root(root) == root + "/herdr/plugins/config/herdr-worktree-nav/config.toml"@,
        plugin_id() == "herdr-worktree-nav"@,
        default_settings().panes.show_worktrees_without_panes,
{
    reveal_strlit("/");
    reveal_strlit("herdr");
    reveal_strlit("plugins");
    reveal_strlit("config");
    reveal_strlit("herdr-worktree-nav");
    reveal_strlit("config.toml");
    reveal_strlit("/herdr/plugins/config/herdr-worktree-nav/config.toml");
    let a = in_directory(root, "herdr"@);
    assert(a.last() == 'r');
    let b = in_directory(a, "plugins"@);
    assert(b.last() == 's');
    let c = in_directory(b, "config"@);
    assert(c.last() == 'g');
    let d = in_directory(c, plugin_id());
    assert(d.last() == 'v');
    assert(in_config_root(root) =~= root
        + "/herdr/plugins/config/herdr-worktree-nav/config.toml"@);
}

/// The directory that herdr names counts alone. Without it the user's configuration directory is
/// looked in first, and then `.config` of the user's own; one that is not set is passed over.
pub proof fn law_named_directory_counts_alone(
    dir: Seq<char>,
    xdg: Option<Seq<char>>,
    home: Option<Seq<char>>,
    root: Seq<char>,
    own: Seq<char>,
)
    ensures
        config_sought(Some(dir), xdg, home) == SoughtView::Given(
            in_directory(dir, "config.toml"@),
        ),
        config_sought(None, Some(root), Some(own)) == SoughtView::FirstOf(
            seq![in_config_root(root), in_config_root(in_directory(own, ".config"@))],
        ),
        config_sought(None, Some(root), None) == SoughtView::FirstOf(seq![in_config_root(root)]),
        config_sought(None, None, Some(own)) == SoughtView::FirstOf(
            seq![in_config_root(in_directory(own, ".config"@))],
        ),
        config_sought(None, None, None) == SoughtView::FirstOf(seq![]),
{
    let file = |root: Seq<char>| in_config_root(root);
    assert(path_each(Some(root), Some(own), file) =~= seq![
        in_config_root(root),
        in_config_root(in_directory(own, ".config"@)),
    ]);
    assert(path_each(None, Some(own), file) =~= seq![
        in_config_root(in_directory(own, ".config"@)),
    ]);
}

/// The path that is taken is there, and none before it is; none is taken only where none is there.
pub proof fn law_first_that_is_there_is_taken(paths: Seq<Seq<char>>, there: Seq<bool>)
    requires
        paths.len() == there.len(),
    ensures
        match first_there(paths, there) {
            Some(path) => exists|i: int|
                0 <= i < paths.len() && #[trigger] paths[i] == path && there[i] && forall|j: int|
                    0 <= j < i ==> !(#[trigger] there[j]),
            None => forall|j: int| 0 <= j < there.len() ==> !(#[trigger] there[j]),
        },
    decreases paths.len(),
{
    if paths.len() > 0 {
        let left = paths.skip(1);
        let rest = there.skip(1);
        law_first_that_is_there_is_taken(left, rest);
        if there[0] {
            assert(first_there(paths, there) == Some(paths[0]));
        } else {
            match first_there(left, rest) {
                Some(path) => {
                    let i = choose|i: int|
                        0 <= i < left.len() && #[trigger] left[i] == path && rest[i] && forall|
                            j: int,
                        |
                            0 <= j < i ==> !(#[trigger] rest[j]);
                    assert(paths[i + 1] == path);
                    assert(there[i + 1]);
                    assert forall|j: int| 0 <= j < i + 1 implies !(#[trigger] there[j]) by {
                        if j > 0 {
                            assert(rest[j - 1] == there[j]);
                        }
                    }
                },
                None => {
                    assert forall|j: int| 0 <= j < there.len() implies !(#[trigger] there[j]) by {
                        if j > 0 {
                            assert(rest[j - 1] == there[j]);
                        }
                    }
                },
            }
        }
    }
}

} // verus!
