//! The records that IPC replies carry (serialised to JSON at the edge).

use vstd::prelude::*;

verus! {

/// Outcome of one command of a `run_command` request.
#[derive(Debug, Clone, PartialEq)]
pub struct CommandResult {
    pub success: bool,
    pub error: Option<String>,
}

/// A rectangle as IPC replies give it.
#[derive(Debug, Clone, PartialEq)]
pub struct IpcRect {
    pub x: i32,
    pub y: i32,
    pub width: i32,
    pub height: i32,
}

/// A workspace as `get_workspaces` reports it.
#[derive(Debug, Clone, PartialEq)]
pub struct WorkspaceInfo {
    pub id: i64,
    pub num: i32,
    pub name: String,
    pub visible: bool,
    pub focused: bool,
    pub urgent: bool,
    pub output: String,
    pub rect: IpcRect,
}

/// An output mode.
#[derive(Debug, Clone, PartialEq)]
pub struct IpcMode {
    pub width: i32,
    pub height: i32,
    pub refresh: i32,
}

/// A node of the tree as `get_tree` reports it.
#[derive(Debug)]
pub struct TreeNode {
    pub id: i64,
    pub name: Option<String>,
    pub node_type: String,
    pub layout: String,
    pub focused: bool,
    pub urgent: bool,
    pub rect: IpcRect,
    pub window_rect: IpcRect,
    pub deco_rect: IpcRect,
    pub geometry: IpcRect,
    pub nodes: Vec<TreeNode>,
    pub floating_nodes: Vec<TreeNode>,
    pub focus: Vec<i64>,
    pub app_id: Option<String>,
    pub window: Option<i64>,
}

/// The reply to `get_version`.
#[derive(Debug, Clone, PartialEq)]
pub struct VersionInfo {
    pub major: i32,
    pub minor: i32,
    pub patch: i32,
    pub human_readable: String,
    pub loaded_config_file_name: String,
}

} // verus!
