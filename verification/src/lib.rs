//! The verified core of a pane and branch picker for the herdr terminal multiplexer.

pub mod action;
pub mod branch_picker;
pub mod branches;
pub mod collect;
pub mod context;
pub mod detached;
pub mod dirty;
pub mod dump;
pub mod gh_cli;
pub mod git_cli;
pub mod herdr_config;
pub mod herdr_socket;
pub mod json;
pub mod model;
pub mod ordered;
pub mod panes;
pub mod panes_state;
pub mod picker;
pub mod plugin_config;
pub mod port;
pub mod removal;
pub mod removals;
pub mod remove;
pub mod settled;
pub mod shapes;
pub mod text;
pub mod tree;
