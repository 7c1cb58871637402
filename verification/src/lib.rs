//! Keeps the names of i3 workspaces in line with a configuration: the data
//! model of the i3 tree and of the configuration, the walk that turns an i3
//! tree into per-output workspace and window tables, and the decisions taken
//! on workspace events and command replies.

mod outside;

pub mod lexical;
pub mod model;
pub mod workspace_tree;
pub mod tree;
pub mod functions;
