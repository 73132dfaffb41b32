//! Container helpers as free functions over a [`Tree`].

use super::tree::{Layout, NodeData, NodeId, Tree, clamp_focus};
use vstd::prelude::*;

verus! {

/// Append a size entry of 100 to a container (see [`Tree::add_container_size`]);
/// anything else is left as it is.
pub fn container_add_child(tree: &mut Tree, container_id: NodeId)
    requires
        old(tree).wf(),
    ensures
        final(tree).wf(),
        !old(tree).is_container(container_id.0 as int) ==> *final(tree) == *old(tree),
        old(tree).is_container(container_id.0 as int) ==> {
            &&& final(tree).only_data_changed(old(tree), container_id.0 as int)
            &&& final(tree).data(container_id.0 as int) matches NodeData::Container {
                layout: l2,
                sizes: s2,
                focused_child: f2,
            }
            &&& old(tree).data(container_id.0 as int) matches NodeData::Container {
                layout: l1,
                sizes: s1,
                focused_child: f1,
            }
            &&& l2 == l1 && f2 == f1 && s2@ == s1@.push(100)
        },
{
    let _ = tree.add_container_size(container_id);
}

/// Remove the size entry at `child_index` and keep the focus in range (see
/// [`Tree::remove_container_size`]); anything else is left as it is.
pub fn container_remove_child(tree: &mut Tree, container_id: NodeId, child_index: usize)
    requires
        old(tree).wf(),
    ensures
        final(tree).wf(),
        !old(tree).is_container(container_id.0 as int) ==> *final(tree) == *old(tree),
        old(tree).is_container(container_id.0 as int) ==> {
            &&& final(tree).only_data_changed(old(tree), container_id.0 as int)
            &&& final(tree).data(container_id.0 as int) matches NodeData::Container {
                layout: l2,
                sizes: s2,
                focused_child: f2,
            }
            &&& old(tree).data(container_id.0 as int) matches NodeData::Container {
                layout: l1,
                sizes: s1,
                focused_child: f1,
            }
            &&& l2 == l1
            &&& s2@ == (if child_index < s1@.len() {
                s1@.remove(child_index as int)
            } else {
                s1@
            })
            &&& f2 == clamp_focus(f1, s2@.len())
        },
{
    let _ = tree.remove_container_size(container_id, child_index);
}

/// Container data with `layout`, two equal sizes, focus on the first child.
pub fn make_container(layout: Layout) -> (d: NodeData)
    ensures
        d matches NodeData::Container { layout: l, sizes: s, focused_child: f } && l == layout
            && s@ == seq![100i64, 100i64] && f == 0,
{
    NodeData::Container { layout, sizes: vec![100, 100], focused_child: 0 }
}

/// Give a container `layout` (see [`Tree::set_layout`]); anything else is
/// left as it is.
pub fn set_container_layout(tree: &mut Tree, container_id: NodeId, layout: Layout)
    requires
        old(tree).wf(),
    ensures
        final(tree).wf(),
        !old(tree).is_container(container_id.0 as int) ==> *final(tree) == *old(tree),
        old(tree).is_container(container_id.0 as int) ==> {
            &&& final(tree).only_data_changed(old(tree), container_id.0 as int)
            &&& final(tree).data(container_id.0 as int) matches NodeData::Container {
                layout: l2,
                sizes: s2,
                focused_child: f2,
            }
            &&& old(tree).data(container_id.0 as int) matches NodeData::Container {
                layout: l1,
                sizes: s1,
                focused_child: f1,
            }
            &&& l2 == layout && s2@ == s1@ && f2 == f1
        },
{
    let _ = tree.set_layout(container_id, layout);
}

/// The focused child of a container, `None` for anything else or an index
/// out of range (see [`Tree::focused_child`]).
pub fn get_focused_child(tree: &Tree, container_id: NodeId) -> (r: Option<NodeId>)
    ensures
        r == (if tree.is_container(container_id.0 as int) {
            let f = tree.data(container_id.0 as int)->Container_focused_child;
            if f < tree.kids(container_id.0 as int).len() {
                Some(tree.kids(container_id.0 as int)[f as int])
            } else {
                None
            }
        } else {
            None
        }),
{
    match tree.focused_child(container_id) {
        Ok(r) => r,
        Err(_) => None,
    }
}

/// Focus `child_id` in a container; whether it was done (see
/// [`Tree::set_focused_child`]).
pub fn set_focused_child(tree: &mut Tree, container_id: NodeId, child_id: NodeId) -> (r: bool)
    requires
        old(tree).wf(),
    ensures
        final(tree).wf(),
        r == (old(tree).children_view(container_id.0 as int).contains(child_id) && old(
            tree,
        ).is_container(container_id.0 as int)),
        !r ==> *final(tree) == *old(tree),
        r ==> {
            &&& final(tree).only_data_changed(old(tree), container_id.0 as int)
            &&& final(tree).data(container_id.0 as int) matches NodeData::Container {
                layout: l2,
                sizes: s2,
                focused_child: f2,
            }
            &&& old(tree).data(container_id.0 as int) matches NodeData::Container {
                layout: l1,
                sizes: s1,
                focused_child: f1,
            }
            &&& l2 == l1 && s2@ == s1@
            &&& old(tree).kids(container_id.0 as int)[f2 as int] == child_id
        },
{
    match tree.set_focused_child(container_id, child_id) {
        Ok(()) => true,
        Err(_) => false,
    }
}

} // verus!
