//! The settings file of the plugin.

use herdr_worktree_nav::plugin_config;
use herdr_worktree_nav::plugin_config::{
    config_path, join_path, load, taken, FileRead, Invalid, Loaded, Panes, Settings, Sought,
};
use toml::Table;

const PATH: &str = "/home/me/.config/herdr/config.toml";

/// The settings in a text, or the reason why it holds none, in the words of a strict reader.
fn parse(contents: &str) -> Result<Settings, Invalid> {
    let table: Table = match toml::from_str(contents) {
        Ok(table) => table,
        Err(error) => {
            return Err(Invalid {
                reason: error.message().to_string(),
                start: error.span().map(|span| span.start),
            });
        }
    };
    let unknown = |name: &str, expected: &str| Invalid {
        reason: format!("unknown field `{name}`, expected `{expected}`"),
        start: contents.find(name),
    };
    let mut settings = Settings::default();
    for (name, value) in &table {
        if name != "panes" {
            return Err(unknown(name, "panes"));
        }
        for (key, value) in value.as_table().expect("a table") {
            if key != "worktree_nav_show_no_panes" {
                return Err(unknown(key, "worktree_nav_show_no_panes"));
            }
            settings = Settings {
                panes: Panes {
                    show_worktrees_without_panes: value.as_bool().expect("a truth value"),
                },
            };
        }
    }
    Ok(settings)
}

fn load_from(contents: &str) -> Loaded {
    plugin_config::load_from(PATH, &FileRead::Parsed(contents.to_string(), parse(contents)))
}

#[test]
fn a_missing_file_uses_the_default() {
    let loaded = plugin_config::load_from(PATH, &FileRead::NotFound);
    assert_eq!(loaded.settings, Settings::default());
    assert!(loaded.complaint.is_none());
    assert!(loaded.path.is_none());
}

#[test]
fn the_file_controls_the_initial_panes_view() {
    let loaded = load_from("[panes]\nworktree_nav_show_no_panes = false\n");
    assert!(!loaded.settings.panes.show_worktrees_without_panes);
    assert!(loaded.complaint.is_none());
    assert_eq!(loaded.path.as_deref(), Some(PATH));
}

#[test]
fn an_invalid_file_keeps_the_defaults_and_leads_with_the_reason() {
    let loaded = load_from("[panes]\nunknown = true\n");
    assert_eq!(loaded.settings, Settings::default());
    let complaint = loaded.complaint.expect("malformed file should complain");
    assert!(
        complaint.starts_with("plugin config.toml: unknown field"),
        "{complaint}"
    );
    assert!(
        !complaint.contains("TOML parse error"),
        "caret drawing would push the reason off the prompt line: {complaint}"
    );
    assert!(
        !complaint.contains(PATH),
        "the full path would hide the reason: {complaint}"
    );
}

#[test]
fn a_wrong_table_keeps_the_defaults_and_leads_with_the_reason() {
    let loaded = load_from("[pane]\nworktree_nav_show_no_panes = false\n");
    assert!(loaded.settings.panes.show_worktrees_without_panes);
    let complaint = loaded.complaint.expect("wrong table should complain");
    assert!(
        complaint.starts_with("plugin config.toml: unknown field `pane`"),
        "{complaint}"
    );
    assert!(complaint.contains("expected `panes`"), "{complaint}");
}

#[test]
fn a_near_miss_key_names_the_wrong_key_and_the_right_one() {
    let loaded = load_from("[panes]\nworktree_nav_show_no_pane = false\n");
    let complaint = loaded.complaint.expect("a near-miss key should complain");
    assert!(
        complaint.starts_with("plugin config.toml: unknown field `worktree_nav_show_no_pane`"),
        "{complaint}"
    );
    assert!(
        complaint.contains("expected `worktree_nav_show_no_panes`"),
        "{complaint}"
    );
}

#[test]
fn an_unreadable_path_keeps_the_defaults_and_says_it_could_not_read() {
    let error = std::io::Error::from(std::io::ErrorKind::PermissionDenied).to_string();
    let loaded = plugin_config::load_from("/home/me", &FileRead::Failed(error));
    assert_eq!(loaded.settings, Settings::default());
    let complaint = loaded.complaint.expect("a directory is not a file");
    assert!(
        complaint.starts_with("could not read plugin config.toml:"),
        "{complaint}"
    );
}

#[test]
fn a_syntax_error_names_the_line() {
    let loaded =
        load_from("[panes]\nworktree_nav_show_no_panes = true\nworktree_nav_show_no_panes = false\n");
    let complaint = loaded.complaint.expect("a duplicate key should complain");
    assert!(
        complaint.starts_with("plugin config.toml: line 3: duplicate key"),
        "{complaint}"
    );
    assert!(
        !complaint.contains("TOML parse error"),
        "caret drawing would push the reason off the prompt line: {complaint}"
    );
}

#[test]
fn a_line_is_named_only_where_the_error_has_a_place_in_the_file() {
    let complaint = |start| {
        plugin_config::format_invalid(
            "a = 1\nb = é\n",
            &Invalid { reason: "expected a value".to_string(), start },
        )
    };
    assert_eq!(complaint(None), "plugin config.toml: expected a value");
    assert_eq!(complaint(Some(0)), "plugin config.toml: line 1: expected a value");
    assert_eq!(complaint(Some(10)), "plugin config.toml: line 2: expected a value");
    // In the middle of a character, and behind the end.
    assert_eq!(complaint(Some(11)), "plugin config.toml: expected a value");
    assert_eq!(complaint(Some(99)), "plugin config.toml: expected a value");
}

#[test]
fn the_directory_herdr_names_is_not_second_guessed() {
    let given = config_path(&Some("/plugin".to_string()), &None, &None);
    assert_eq!(taken(&given, &Vec::new()), Some("/plugin/config.toml".to_string()));
    assert_eq!(join_path("/plugin/", "config.toml"), "/plugin/config.toml");
}

#[test]
fn without_such_a_directory_the_first_file_that_is_there_is_taken() {
    let sought = config_path(&None, &Some("/xdg".to_string()), &Some("/home/me".to_string()));
    let paths = match &sought {
        Sought::FirstOf(paths) => paths.clone(),
        Sought::Given(path) => panic!("no directory was named: {path}"),
    };
    let mut there = vec![false; paths.len()];
    assert_eq!(taken(&sought, &there), None);
    there[paths.len() - 1] = true;
    assert_eq!(taken(&sought, &there).as_ref(), paths.last());
    there[0] = true;
    assert_eq!(taken(&sought, &there).as_ref(), paths.first());
}

#[test]
fn a_file_that_is_nowhere_leaves_the_defaults() {
    let loaded = load(&None, &FileRead::NotFound);
    assert_eq!(loaded.settings, Settings::default());
    assert_eq!((loaded.complaint, loaded.path), (None, None));
}
