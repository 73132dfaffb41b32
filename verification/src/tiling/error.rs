use super::tree::NodeId;
use vstd::prelude::*;

verus! {

/// Errors reported by tree operations that address a node.
#[derive(Debug, Clone, PartialEq, Eq)]
pub enum TilingError {
    NodeNotFound(NodeId),
    NotAContainer(NodeId),
    NotAWorkspace(NodeId),
    NotAnOutput(NodeId),
    NotAWindow(NodeId),
    WindowNotFound(u64),
    NoFocusedWorkspace,
    WorkspaceNotFound(String),
    ChildIndexOutOfBounds { container: NodeId, index: usize, len: usize },
}

} // verus!
