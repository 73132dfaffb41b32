//! Layout as free functions over a [`Tree`].

pub use super::tree::shrink_rect;
use super::tree::{GapsConfig, NodeId, Rect, Tree};
use vstd::prelude::*;

verus! {

/// Calls [`Tree::compute_layout`].
pub fn compute_layout(tree: &mut Tree, node_id: NodeId, available: Rect, gaps: &GapsConfig)
    requires
        old(tree).wf(),
    ensures
        final(tree).wf(),
        match old(tree).layout_plan(node_id.0 as int, available, *gaps) {
            Some(plan) => final(tree).placed(old(tree), plan),
            None => *final(tree) == *old(tree),
        },
{
    tree.compute_layout(node_id, available, gaps)
}

/// Calls [`Tree::window_geometries`].
pub fn get_window_geometries(tree: &Tree) -> (r: Vec<(u64, Rect)>)
    requires
        tree.wf(),
    ensures
        r@ == tree.wins(0),
{
    tree.window_geometries()
}

} // verus!
