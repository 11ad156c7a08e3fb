# herdr-worktree-nav

A herdr plugin with two pickers: one lists every open pane by repository and worktree, the other
takes a branch and turns it into a working pane.

`src/` is the library, verified with Verus. It decides; it never waits, reads a file or starts a
process. What the outside world answers comes in as an argument, and what is to be asked next goes
out as a value.

| Module | What it holds |
| --- | --- |
| `text`, `shapes`, `ordered` | texts as sequences of characters, views of lists and options, an ordered map |
| `port`, `model`, `context` | what git, gh and herdr say, the tree that is shown, where the plugin was called from |
| `git_cli`, `gh_cli`, `herdr_socket`, `json` | what is asked of git, gh and herdr, and how the answers are read |
| `collect`, `tree` | the session read into a tree of repositories, checkouts and panes |
| `dirty`, `settled` | which checkouts hold uncommitted work, and which branches GitHub has settled |
| `removal`, `remove`, `removals`, `detached` | removing a checkout in a process of its own, and what is said of it |
| `panes_state`, `panes` | the panes picker |
| `branches`, `branch_picker` | the branches picker |
| `picker`, `action`, `plugin_config`, `herdr_config`, `dump` | opening and switching the pickers, the settings, the page that says everything |

What the library promises across its functions stands beside them, in the proof functions whose
names start with `law_`.

`app/` is the program around the library: arguments, processes, threads, the socket and the
terminal. `tests/` drives the library with answers that are made up there.
