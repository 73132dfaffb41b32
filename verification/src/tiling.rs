//! Arena-allocated N-ary tiling tree in the i3/Sway model
//! (root, outputs, workspaces, split/tabbed/stacked containers, windows).

pub mod commands;
pub mod container;
pub mod error;
pub mod layout;
pub mod tree;
pub mod workspace;

pub use error::TilingError;
pub use tree::{Direction, GapsConfig, Layout, Node, NodeData, NodeId, Rect, ResizeAxis, Tree};
