//! herdr's own configuration file: where it is looked for.

use vstd::prelude::*;

use crate::plugin_config;
use crate::plugin_config::{first_found, join_path};
use crate::shapes;
use crate::text;
use crate::text::{chars_of, text_of};

verus! {

// ---------------------------------------------------------------- directories

/// How many characters of a path its first component takes where that is `/`, or is the `.` that
/// the path starts with; none where it starts with a name.
pub open spec fn start_of(path: Seq<char>) -> int {
    if path.len() > 0 && (path[0] == '/' || (path[0] == '.' && (path.len() == 1 || path[1]
        == '/'))) {
        1
    } else {
        0
    }
}

/// The place of the last slash at `from` or behind it, or one before `from`.
pub open spec fn last_slash(path: Seq<char>, from: int) -> int
    decreases path.len(),
{
    if path.len() == 0 || path.len() <= from {
        from - 1
    } else if path.last() == '/' {
        path.len() - 1
    } else {
        last_slash(path.drop_last(), from)
    }
}

/// What stands behind the last slash of a path, behind its start.
pub open spec fn last_piece(path: Seq<char>) -> Seq<char> {
    path.skip(last_slash(path, start_of(path)) + 1)
}

/// What stands before the last piece of a path and its slash.
pub open spec fn before_piece(path: Seq<char>) -> Seq<char> {
    let slash = last_slash(path, start_of(path));
    if slash < start_of(path) {
        path.take(start_of(path))
    } else {
        path.take(slash)
    }
}

/// A path without the slashes and the `.` at its end that name nothing.
pub open spec fn without_end(path: Seq<char>) -> Seq<char>
    decreases path.len(),
    via without_end_ends
{
    if path.len() <= start_of(path) {
        path
    } else if last_piece(path).len() == 0 || last_piece(path) == seq!['.'] {
        without_end(before_piece(path))
    } else {
        path
    }
}

#[via_fn]
proof fn without_end_ends(path: Seq<char>) {
    if path.len() > start_of(path) {
        lemma_before_piece(path);
    }
}

/// The directory that a path is in: the path without its last component. A name alone is in the
/// empty path; the empty path and `/` are in none.
pub open spec fn parent(path: Seq<char>) -> Option<Seq<char>> {
    let said = without_end(path);
    if said.len() > start_of(said) {
        Some(without_end(before_piece(said)))
    } else if said == seq!['.'] {
        Some(seq![])
    } else {
        None
    }
}

/// herdr's own directory, from that of a plugin's configuration: three above it, as in
/// `<herdr>/plugins/config/<plugin>`.
pub open spec fn above_plugin(plugin_dir: Seq<char>) -> Option<Seq<char>> {
    match parent(plugin_dir) {
        Some(config) => match parent(config) {
            Some(plugins) => parent(plugins),
            None => None,
        },
        None => None,
    }
}

proof fn lemma_last_slash(path: Seq<char>, from: int)
    requires
        0 <= from <= path.len(),
    ensures
        from - 1 <= last_slash(path, from) < path.len() || (path.len() == from && last_slash(
            path,
            from,
        ) == from - 1),
    decreases path.len(),
{
    if path.len() > from && path.last() != '/' {
        lemma_last_slash(path.drop_last(), from);
    }
}

proof fn lemma_before_piece(path: Seq<char>)
    requires
        path.len() > start_of(path),
    ensures
        before_piece(path).len() < path.len(),
        start_of(path) - 1 <= last_slash(path, start_of(path)) < path.len(),
{
    lemma_last_slash(path, start_of(path));
}

/// Whether a text is a component of a path that names something.
pub open spec fn is_name(text: Seq<char>) -> bool {
    text.len() > 0 && text != seq!['.'] && !text.contains('/')
}

proof fn lemma_last_slash_before(dir: Seq<char>, name: Seq<char>, from: int)
    requires
        0 <= from <= dir.len(),
        !name.contains('/'),
    ensures
        last_slash(dir + seq!['/'] + name, from) == dir.len(),
    decreases name.len(),
{
    let path = dir + seq!['/'] + name;
    if name.len() == 0 {
        assert(path.last() == '/');
    } else {
        assert(path.last() == name.last());
        assert(name.contains(name.last()));
        assert(path.drop_last() =~= dir + seq!['/'] + name.drop_last());
        assert forall|i: int| 0 <= i < name.len() - 1 implies name.drop_last()[i] != '/' by {
            assert(name.contains(name[i]));
        }
        lemma_last_slash_before(dir, name.drop_last(), from);
    }
}

proof fn lemma_parent_of_named(dir: Seq<char>, name: Seq<char>)
    requires
        dir.len() > 0,
        without_end(dir) == dir,
        is_name(name),
    ensures
        without_end(dir + seq!['/'] + name) == dir + seq!['/'] + name,
        parent(dir + seq!['/'] + name) == Some(dir),
{
    let path = dir + seq!['/'] + name;
    assert(path[0] == dir[0]);
    assert(path[1] == if dir.len() == 1 {
        '/'
    } else {
        dir[1]
    });
    assert(start_of(path) == start_of(dir));
    lemma_last_slash_before(dir, name, start_of(path));
    assert(last_piece(path) =~= name);
    assert(path.take(dir.len() as int) =~= dir);
}

/// Where a plugin's configuration is in the directory that herdr gives it, `plugins/config` and
/// the plugin's name below herdr's own, the file is looked for in herdr's own first.
pub proof fn law_plugin_leads_to_herdr(
    root: Seq<char>,
    plugin: Seq<char>,
    xdg: Option<Seq<char>>,
    home: Option<Seq<char>>,
)
    requires
        root.len() > 0,
        without_end(root) == root,
        is_name(plugin),
    ensures
        above_plugin(root + "/plugins/config/"@ + plugin) == Some(root),
        candidates(Some(root + "/plugins/config/"@ + plugin), xdg, home)[0] == file_in(root),
{
    reveal_strlit("/plugins/config/");
    let plugins = seq!['p', 'l', 'u', 'g', 'i', 'n', 's'];
    let config = seq!['c', 'o', 'n', 'f', 'i', 'g'];
    let below = root + seq!['/'] + plugins;
    let above = below + seq!['/'] + config;
    assert(root + "/plugins/config/"@ + plugin =~= above + seq!['/'] + plugin);
    lemma_parent_of_named(root, plugins);
    lemma_parent_of_named(below, config);
    lemma_parent_of_named(above, plugin);
}

/// How many characters the start of the path in the first `n` of `path` takes.
fn start(path: &Vec<char>, n: usize) -> (at: usize)
    requires
        n <= path@.len(),
    ensures
        at == start_of(path@.take(n as int)),
        at <= n,
{
    if n > 0 && (path[0] == '/' || (path[0] == '.' && (n == 1 || path[1] == '/'))) {
        1
    } else {
        0
    }
}

/// The place behind the last slash at `from` or behind it, or `from`, in the first `n` of `path`.
fn behind_slash(path: &Vec<char>, n: usize, from: usize) -> (at: usize)
    requires
        from <= n <= path@.len(),
    ensures
        at == last_slash(path@.take(n as int), from as int) + 1,
        from <= at <= n,
{
    let ghost said = path@.take(n as int);
    let mut i = n;
    assert(said.take(n as int) =~= said);
    while i > from && path[i - 1] != '/'
        invariant
            from <= i <= n <= path@.len(),
            said == path@.take(n as int),
            last_slash(said, from as int) == last_slash(said.take(i as int), from as int),
        decreases i,
    {
        assert(said.take(i as int).drop_last() =~= said.take(i - 1));
        assert(said.take(i as int).last() == path@[i - 1]);
        i = i - 1;
    }
    if i > from {
        assert(said.take(i as int).last() == path@[i - 1]);
    }
    i
}

/// How many characters of the first `n` of `path` stand before its last piece.
fn piece_start(path: &Vec<char>, n: usize) -> (at: (usize, usize))
    requires
        n <= path@.len(),
        n > start_of(path@.take(n as int)),
    ensures
        at.0 < n,
        at.1 <= n,
        before_piece(path@.take(n as int)) == path@.take(at.0 as int),
        last_piece(path@.take(n as int)) == path@.subrange(at.1 as int, n as int),
{
    let ghost said = path@.take(n as int);
    let from = start(path, n);
    let behind = behind_slash(path, n, from);
    let before = if behind > from {
        behind - 1
    } else {
        from
    };
    assert(said.take(before as int) =~= path@.take(before as int));
    assert(said.skip(behind as int) =~= path@.subrange(behind as int, n as int));
    (before, behind)
}

/// How many characters of the first `n` of `path` are left without the end that names nothing.
fn named(path: &Vec<char>, n: usize) -> (left: usize)
    requires
        n <= path@.len(),
    ensures
        left <= n,
        without_end(path@.take(n as int)) == path@.take(left as int),
{
    let mut left = n;
    loop
        invariant
            left <= n <= path@.len(),
            without_end(path@.take(n as int)) == without_end(path@.take(left as int)),
        ensures
            left <= n,
            without_end(path@.take(n as int)) == path@.take(left as int),
        decreases left,
    {
        let ghost said = path@.take(left as int);
        if left <= start(path, left) {
            break;
        }
        proof {
            lemma_before_piece(said);
        }
        let (before, behind) = piece_start(path, left);
        let ghost piece = last_piece(said);
        if behind == left {
            assert(piece.len() == 0);
        } else if behind + 1 == left && path[behind] == '.' {
            assert(piece =~= seq!['.']);
        } else {
            assert(piece.len() > 0);
            assert(piece[0] == path@[behind as int]);
            assert(piece != seq!['.']);
            break;
        }
        left = before;
    }
    left
}

/// How many characters of the first `n` of `path` name the directory that it is in.
fn parent_of(path: &Vec<char>, n: usize) -> (left: Option<usize>)
    requires
        n <= path@.len(),
    ensures
        match left {
            Some(left) => left <= n && parent(path@.take(n as int)) == Some(
                path@.take(left as int),
            ),
            None => parent(path@.take(n as int)) is None,
        },
{
    let left = named(path, n);
    let ghost said = path@.take(left as int);
    if left > start(path, left) {
        let (before, _) = piece_start(path, left);
        Some(named(path, before))
    } else if left == 1 && path[0] == '.' {
        assert(said =~= seq!['.']);
        assert(path@.take(0) =~= seq![]);
        Some(0)
    } else {
        assert(said != seq!['.']) by {
            if said == seq!['.'] {
                assert(said.len() == 1 && said[0] == '.');
            }
        }
        None
    }
}

/// herdr's own directory, from that of a plugin's configuration.
fn above(plugin_dir: &str) -> (root: Option<String>)
    ensures
        shapes::opt(root) == above_plugin(plugin_dir@),
{
    let path = chars_of(plugin_dir);
    assert(path@.take(path@.len() as int) =~= path@);
    let config = match parent_of(&path, path.len()) {
        Some(n) => n,
        None => {
            return None;
        },
    };
    let plugins = match parent_of(&path, config) {
        Some(n) => n,
        None => {
            return None;
        },
    };
    match parent_of(&path, plugins) {
        Some(n) => {
            let root = vstd::slice::slice_subrange(path.as_slice(), 0, n);
            assert(root@ =~= path@.take(n as int));
            Some(text_of(root))
        },
        None => None,
    }
}

// ---------------------------------------------------------------- the file

/// The file in a directory of herdr's.
pub open spec fn file_in(dir: Seq<char>) -> Seq<char> {
    plugin_config::in_directory(dir, "config.toml"@)
}

/// The places where the file is looked for: above the plugin's directory, and in the user's
/// configuration. The first that is there is taken.
pub open spec fn candidates(
    plugin_dir: Option<Seq<char>>,
    xdg: Option<Seq<char>>,
    home: Option<Seq<char>>,
) -> Seq<Seq<char>> {
    let root = match plugin_dir {
        Some(dir) => above_plugin(dir),
        None => None,
    };
    let above = match root {
        Some(root) => seq![file_in(root)],
        None => seq![],
    };
    above + plugin_config::path_each(
        xdg,
        home,
        |root: Seq<char>| file_in(plugin_config::in_directory(root, "herdr"@)),
    )
}

fn herdr_file(root: &str) -> (path: String)
    ensures
        path@ == file_in(plugin_config::in_directory(root@, "herdr"@)),
{
    join_path(join_path(root, "herdr").as_str(), "config.toml")
}

/// The places where herdr's file is looked for.
pub fn config_path(
    plugin_dir: &Option<String>,
    xdg: &Option<String>,
    home: &Option<String>,
) -> (paths: Vec<String>)
    ensures
        text::texts(paths@) == candidates(
            shapes::opt(*plugin_dir),
            shapes::opt(*xdg),
            shapes::opt(*home),
        ),
{
    let mut paths: Vec<String> = Vec::new();
    let root = match plugin_dir {
        Some(dir) => above(dir.as_str()),
        None => None,
    };
    match &root {
        Some(root) => {
            paths.push(join_path(root.as_str(), "config.toml"));
        },
        None => {},
    }
    match xdg {
        Some(root) => {
            paths.push(herdr_file(root.as_str()));
        },
        None => {},
    }
    match home {
        Some(home) => {
            paths.push(herdr_file(join_path(home.as_str(), ".config").as_str()));
        },
        None => {},
    }
    assert(text::texts(paths@) =~= candidates(
        shapes::opt(*plugin_dir),
        shapes::opt(*xdg),
        shapes::opt(*home),
    ));
    paths
}

/// The file that is taken, from which of the places have one.
pub fn taken(paths: &Vec<String>, there: &Vec<bool>) -> (path: Option<String>)
    ensures
        shapes::opt(path) == plugin_config::first_there(text::texts(paths@), there@),
{
    first_found(paths, there)
}

/// A path that ends in a name is in what stands before its last slash, and slashes behind it do not
/// change that.
pub proof fn law_name_is_in_its_directory(dir: Seq<char>, name: Seq<char>)
    requires
        dir.len() > 0,
        without_end(dir) == dir,
        is_name(name),
    ensures
        parent(dir + seq!['/'] + name) == Some(dir),
        parent(dir + seq!['/'] + name + seq!['/']) == Some(dir),
        parent(dir + seq!['/'] + name + seq!['/', '.']) == Some(dir),
{
    lemma_parent_of_named(dir, name);
    let path = dir + seq!['/'] + name;
    lemma_slash_names_nothing(path);
    lemma_dot_names_nothing(path);
}

proof fn lemma_slash_names_nothing(path: Seq<char>)
    requires
        path.len() > 1,
    ensures
        without_end(path + seq!['/']) == without_end(path),
{
    let longer = path + seq!['/'];
    assert(longer[0] == path[0] && longer[1] == path[1]);
    assert(start_of(longer) == start_of(path));
    assert(longer.last() == '/');
    assert(last_slash(longer, start_of(longer)) == path.len());
    assert(last_piece(longer).len() == 0);
    assert(longer.take(path.len() as int) =~= path);
}

proof fn lemma_dot_names_nothing(path: Seq<char>)
    requires
        path.len() > 1,
    ensures
        without_end(path + seq!['/', '.']) == without_end(path),
{
    let longer = path + seq!['/', '.'];
    assert(longer =~= path + seq!['/'] + seq!['.']);
    assert(longer[0] == path[0] && longer[1] == path[1]);
    assert(start_of(longer) == start_of(path));
    lemma_last_slash_before(path, seq!['.'], start_of(longer));
    assert(last_slash(longer, start_of(longer)) == path.len());
    assert(last_piece(longer) =~= seq!['.']);
    assert(longer.take(path.len() as int) =~= path);
}

/// The root and the empty path are in no directory, and a name alone is in the empty path.
pub proof fn law_root_is_in_nothing(name: Seq<char>)
    requires
        is_name(name),
        name[0] != '.',
    ensures
        parent(seq![]) is None,
        parent(seq!['/']) is None,
        parent(name) == Some(Seq::<char>::empty()),
        parent(seq!['/'] + name) == Some(seq!['/']),
{
    assert(without_end(seq![]) =~= seq![]);
    assert(without_end(seq!['/']) =~= seq!['/']);
    assert(name.contains(name[0]));
    assert(start_of(name) == 0);
    lemma_no_slash(name, 0);
    assert(last_piece(name) =~= name);
    assert(without_end(name) == name);
    assert(before_piece(name) =~= seq![]);
    let rooted = seq!['/'] + name;
    assert(start_of(rooted) == 1);
    assert forall|i: int| 1 <= i < rooted.len() implies rooted[i] != '/' by {
        assert(rooted[i] == name[i - 1]);
        assert(name.contains(name[i - 1]));
    }
    lemma_no_slash_behind(rooted, 1);
    assert(last_piece(rooted) =~= name);
    assert(without_end(rooted) == rooted);
    assert(before_piece(rooted) =~= seq!['/']);
}

proof fn lemma_no_slash(path: Seq<char>, from: int)
    requires
        0 <= from <= path.len(),
        !path.contains('/'),
    ensures
        last_slash(path, from) == from - 1,
{
    assert forall|i: int| from <= i < path.len() implies path[i] != '/' by {
        assert(path.contains(path[i]));
    }
    lemma_no_slash_behind(path, from);
}

proof fn lemma_no_slash_behind(path: Seq<char>, from: int)
    requires
        0 <= from <= path.len(),
        forall|i: int| from <= i < path.len() ==> path[i] != '/',
    ensures
        last_slash(path, from) == from - 1,
    decreases path.len(),
{
    if path.len() > from {
        lemma_no_slash_behind(path.drop_last(), from);
    }
}

/// The file is looked for above the plugin's directory where that leads anywhere, then in the
/// user's configuration directory, and then in `.config` of the user's own.
pub proof fn law_file_is_sought_in_order(
    plugin_dir: Option<Seq<char>>,
    herdr: Seq<char>,
    root: Seq<char>,
    own: Seq<char>,
)
    ensures
        plugin_dir is Some && above_plugin(plugin_dir->Some_0) == Some(herdr) ==> candidates(
            plugin_dir,
            Some(root),
            Some(own),
        ) == seq![
            file_in(herdr),
            file_in(plugin_config::in_directory(root, "herdr"@)),
            file_in(
                plugin_config::in_directory(
                    plugin_config::in_directory(own, ".config"@),
                    "herdr"@,
                ),
            ),
        ],
        plugin_dir is None || above_plugin(plugin_dir->Some_0) is None ==> candidates(
            plugin_dir,
            Some(root),
            None,
        ) == seq![file_in(plugin_config::in_directory(root, "herdr"@))],
        candidates(None, None, Some(own)) == seq![
            file_in(
                plugin_config::in_directory(
                    plugin_config::in_directory(own, ".config"@),
                    "herdr"@,
                ),
            ),
        ],
        candidates(None, None, None).len() == 0,
        file_in(herdr) == plugin_config::in_directory(herdr, "config.toml"@),
{
    let file = |root: Seq<char>| file_in(plugin_config::in_directory(root, "herdr"@));
    let mine = plugin_config::in_directory(own, ".config"@);
    assert(plugin_config::path_each(Some(root), Some(own), file) =~= seq![
        file(root),
        file(mine),
    ]);
    assert(plugin_config::path_each(None, Some(own), file) =~= seq![file(mine)]);
    assert(candidates(None, None, Some(own)) =~= seq![file(mine)]);
    assert(candidates(None, None, None) =~= Seq::<Seq<char>>::empty());
    match plugin_dir {
        Some(dir) => match above_plugin(dir) {
            Some(above) => {
                assert(candidates(plugin_dir, Some(root), Some(own)) =~= seq![
                    file_in(above),
                    file(root),
                    file(mine),
                ]);
            },
            None => {
                assert(candidates(plugin_dir, Some(root), None) =~= seq![file(root)]);
            },
        },
        None => {
            assert(candidates(plugin_dir, Some(root), None) =~= seq![file(root)]);
        },
    }
}

} // verus!
