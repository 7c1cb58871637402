//! The data the library works on: the configuration, the errors, the i3
//! tree as far as the logic reads it, and the tables built from it.

use std::collections::BTreeMap;
use vstd::prelude::*;

use crate::workspace_tree::WorkspaceTree;

verus! {

/// The configuration as the program holds it once read.
#[derive(Debug)]
pub struct ConfigData {
    pub rename: ConfigRename,
    pub cross_boundary: bool,
}

/// The configuration file's contents.
#[derive(Debug)]
pub struct Config {
    pub rename: ConfigRename,
    pub cross_boundary: bool,
}

/// The renaming rules: for windows and for workspaces.
#[derive(Debug)]
pub struct ConfigRename {
    pub windows: Vec<ConfigWindow>,
    pub workspaces: Vec<ConfigWorkspace>,
}

/// A window rule: windows of `class` are shown as `name`.
#[derive(Debug)]
pub struct ConfigWindow {
    pub class: String,
    pub name: String,
}

/// A workspace rule: workspace `number` goes by `name`, with an optional
/// layout.
#[derive(Debug)]
pub struct ConfigWorkspace {
    pub number: u8,
    pub name: String,
    pub layout: Option<String>,
}

/// A change could not be applied.
#[derive(Debug)]
pub struct ApplyError {}

/// The tree could not be brought up to date.
#[derive(Debug)]
pub struct UpdateError {}

/// Any error of the program.
#[derive(Debug)]
pub enum I3WSNamesError {
    Loop(LoopError),
    Request(RequestError),
}

/// An error in the event loop.
#[derive(Debug, Clone, Copy)]
pub enum LoopError {
    ApplyError,
    UpdateError,
    ParseError,
}

/// An error in talking to i3 or in reading the configuration.
#[derive(Debug)]
pub enum RequestError {
    I3Connection(i3ipc::EstablishError),
    I3Message(i3ipc::MessageError),
    Config(config::ConfigError),
    I3Command(String),
}

/// The workspaces and windows found on one output.
#[derive(Debug, Clone)]
pub struct Tree {
    pub workspaces: WorkspaceTree,
    pub windows: WindowTree,
    pub output: String,
}

/// What is kept of a workspace node.
#[derive(Debug, Clone, Copy)]
pub struct Workspace {
    pub id: i64,
    pub layout: NodeLayout,
    pub urgent: bool,
    pub focused: bool,
}

/// What is kept of a window.
#[derive(Debug, Clone)]
pub struct Window {
    pub in_workspace: i64,
    pub x11_id: i32,
    pub name: String,
    pub display_name: String,
    pub class: Vec<String>,
    pub urgent: bool,
    pub focused: bool,
}

/// A window node together with the id of the workspace it belongs to.
#[derive(Debug)]
pub struct WindowDigest {
    pub window_data: Node,
    pub workspace_id: i64,
}

/// The workspaces of one output area, and the window nodes found in them.
#[derive(Debug)]
pub struct WorkspaceDigest {
    pub workspaces: WorkspaceTree,
    pub windows: Vec<WindowDigest>,
}

/// Windows, keyed by the id that i3 gives them.
pub type WindowTree = BTreeMap<i64, Window>;

/// The kinds of node that i3 reports.
#[derive(Debug, Clone, Copy, PartialEq, Eq, Structural)]
pub enum NodeType {
    Root,
    Output,
    Con,
    FloatingCon,
    Workspace,
    DockArea,
    Unknown,
}

/// The layouts that i3 reports for a node.
#[derive(Debug, Clone, Copy, PartialEq, Eq, Structural)]
pub enum NodeLayout {
    SplitH,
    SplitV,
    Stacked,
    Tabbed,
    DockArea,
    Output,
    Unknown,
}

/// A node of the i3 tree, with the fields that the library reads.
#[derive(Debug)]
pub struct Node {
    pub id: i64,
    pub name: Option<String>,
    pub nodetype: NodeType,
    pub layout: NodeLayout,
    pub urgent: bool,
    pub focused: bool,
    pub window: Option<i32>,
    pub nodes: Vec<Node>,
}

/// The outcome of one command sent to i3.
#[derive(Debug)]
pub struct CommandOutcome {
    pub success: bool,
    pub error: Option<String>,
}

/// i3's reply to a command message: one outcome per command.
#[derive(Debug)]
pub struct CommandReply {
    pub outcomes: Vec<CommandOutcome>,
}

/// The kinds of workspace change that i3 reports.
#[derive(Debug, Clone, Copy, PartialEq, Eq, Structural)]
pub enum WorkspaceChange {
    Focus,
    Init,
    Empty,
    Urgent,
    Rename,
    Reload,
    Restored,
    Move,
    Unknown,
}

} // verus!
