//! Window-manager commands as free functions over a [`Tree`] (each the method
//! of the same behaviour on the tree).

pub use super::tree::Direction;
pub use super::tree::ResizeAxis;
use super::tree::{
    marks_of, next_layout, same_but_marks, swapped, window_with, without, Layout, NodeId,
    Tree,
};
use vstd::prelude::*;

verus! {

/// Calls [`Tree::insert_window`].
pub fn insert_window(tree: &mut Tree, window_id: u64) -> (w: NodeId)
    requires
        old(tree).wf(),
        old(tree).room() >= 2,
        old(tree).insert_completes(old(tree).insert_root(), Layout::SplitH),
    ensures
        final(tree).wf(),
        final(tree).inserted(old(tree), old(tree).insert_root(), Layout::SplitH, w, window_id),
{
    tree.insert_window(window_id)
}

/// Calls [`Tree::remove_window`].
pub fn remove_window(tree: &mut Tree, window_id: u64) -> (r: bool)
    requires
        old(tree).wf(),
    ensures
        r == old(tree).spec_find_window(window_id) is Some,
        final(tree).removal_outcome(old(tree), window_id),
{
    tree.remove_window(window_id)
}

/// Calls [`Tree::move_focus`].
pub fn move_focus(tree: &mut Tree, d: Direction) -> (r: bool)
    requires
        old(tree).wf(),
    ensures
        final(tree).wf(),
        match old(tree).spec_move_focus(d) {
            Some((c, j)) => r && final(tree).refocused(old(tree), c.0 as int, j),
            None => !r && *final(tree) == *old(tree),
        },
{
    tree.move_focus(d)
}

/// Calls [`Tree::split`].
pub fn split(tree: &mut Tree, layout: Layout)
    requires
        old(tree).wf(),
    ensures
        final(tree).wf(),
        match old(tree).spec_focused_container() {
            None => *final(tree) == *old(tree),
            Some(c) => final(tree).relayout(old(tree), c.0 as int, layout),
        },
{
    tree.split(layout)
}

/// Calls [`Tree::toggle_floating`].
pub fn toggle_floating(tree: &mut Tree, window_id: u64) -> (r: bool)
    requires
        old(tree).wf(),
    ensures
        final(tree).wf(),
        final(tree).floating_toggled(old(tree), window_id),
        match old(tree).spec_find_window(window_id) {
            None => !r && *final(tree) == *old(tree),
            Some(w) => {
                let d = old(tree).data(w.0 as int);
                &&& r
                &&& final(tree).only_data_changed(old(tree), w.0 as int)
                &&& final(tree).data(w.0 as int) == window_with(
                    d,
                    !d->Window_floating,
                    d->Window_fullscreen,
                    d->Window_fullscreen_global,
                    d->Window_sticky,
                    d->Window_saved_geometry,
                )
            },
        },
{
    tree.toggle_floating(window_id)
}

/// Calls [`Tree::focused_window_id`].
pub fn find_focused_window_id(tree: &Tree) -> (r: Option<u64>)
    requires
        tree.wf(),
    ensures
        r == match tree.spec_focused_window() {
            Some(w) => Some(tree.data(w.0 as int)->Window_window_id),
            None => None::<u64>,
        },
{
    tree.focused_window_id()
}

/// Calls [`Tree::move_window`].
pub fn move_window(tree: &mut Tree, d: Direction) -> (r: bool)
    requires
        old(tree).wf(),
    ensures
        final(tree).wf(),
        match old(tree).spec_move_target(d) {
            None => !r && *final(tree) == *old(tree),
            Some((p, i, j)) => r && final(tree).stepped(old(tree), p.0 as int, i as int, j as int),
        },
{
    tree.move_window(d)
}

/// Calls [`Tree::move_to_workspace`].
pub fn move_to_workspace(tree: &mut Tree, target_ws: &str) -> (r: bool)
    requires
        old(tree).wf(),
        old(tree).move_completes(target_ws@),
    ensures
        final(tree).wf(),
        match old(tree).move_pair(target_ws@) {
            None => !r && *final(tree) == *old(tree),
            Some((wid, ws)) => r && final(tree).moved_via(old(tree), wid, ws),
        },
{
    tree.move_to_workspace(target_ws)
}

/// Calls [`Tree::resize_container`].
pub fn resize_container(tree: &mut Tree, node_id: NodeId, axis: ResizeAxis, delta_ppt: i64) -> (r: bool)
    requires
        old(tree).wf(),
        old(tree).resize_fits(node_id, axis, delta_ppt),
    ensures
        final(tree).wf(),
        match old(tree).resize_target(node_id, axis) {
            Some((p, i, j)) => r && final(tree).resized(old(tree), p.0 as int, i as int, j as int, delta_ppt as int),
            None => !r && *final(tree) == *old(tree),
        },
{
    tree.resize_container(node_id, axis, delta_ppt)
}

/// Calls [`Tree::focus_parent`].
pub fn focus_parent(tree: &mut Tree) -> (r: bool)
    requires
        old(tree).wf(),
    ensures
        final(tree).wf(),
        match old(tree).spec_focus_parent() {
            Some(p) => r && final(tree).same_but_focus(old(tree)) && final(tree).focus() == Some(p),
            None => !r && *final(tree) == *old(tree),
        },
{
    tree.focus_parent()
}

/// Calls [`Tree::focus_child`].
pub fn focus_child(tree: &mut Tree) -> (r: bool)
    requires
        old(tree).wf(),
    ensures
        final(tree).wf(),
        match old(tree).spec_focus_child() {
            Some(f) => r && final(tree).same_but_focus(old(tree)) && final(tree).focus() == f,
            None => !r && *final(tree) == *old(tree),
        },
{
    tree.focus_child()
}

/// Calls [`Tree::set_floating`].
pub fn set_floating(tree: &mut Tree, window_id: u64, enable: bool) -> (r: bool)
    requires
        old(tree).wf(),
    ensures
        final(tree).wf(),
        match old(tree).spec_find_window(window_id) {
            None => !r && *final(tree) == *old(tree),
            Some(w) => {
                let d = old(tree).data(w.0 as int);
                &&& r
                &&& final(tree).only_data_changed(old(tree), w.0 as int)
                &&& final(tree).data(w.0 as int) == window_with(
                    d,
                    enable,
                    d->Window_fullscreen,
                    d->Window_fullscreen_global,
                    d->Window_sticky,
                    d->Window_saved_geometry,
                )
            },
        },
{
    tree.set_floating(window_id, enable)
}

/// Calls [`Tree::set_fullscreen`].
pub fn set_fullscreen(tree: &mut Tree, window_id: u64, enable: bool) -> (r: bool)
    requires
        old(tree).wf(),
    ensures
        final(tree).wf(),
        match old(tree).spec_find_window(window_id) {
            None => !r && *final(tree) == *old(tree),
            Some(w) => {
                let d = old(tree).data(w.0 as int);
                &&& r
                &&& final(tree).only_data_changed(old(tree), w.0 as int)
                &&& final(tree).data(w.0 as int) == window_with(
                    d,
                    d->Window_floating,
                    enable,
                    d->Window_fullscreen_global,
                    d->Window_sticky,
                    if enable && !d->Window_fullscreen {
                        Some(d->Window_geometry)
                    } else {
                        d->Window_saved_geometry
                    },
                )
            },
        },
{
    tree.set_fullscreen(window_id, enable)
}

/// Calls [`Tree::toggle_fullscreen`].
pub fn toggle_fullscreen(tree: &mut Tree, window_id: u64) -> (r: bool)
    requires
        old(tree).wf(),
    ensures
        final(tree).wf(),
        match old(tree).spec_find_window(window_id) {
            None => !r && *final(tree) == *old(tree),
            Some(w) => {
                let d = old(tree).data(w.0 as int);
                &&& r
                &&& final(tree).only_data_changed(old(tree), w.0 as int)
                &&& final(tree).data(w.0 as int) == window_with(
                    d,
                    d->Window_floating,
                    !d->Window_fullscreen,
                    d->Window_fullscreen_global,
                    d->Window_sticky,
                    if !d->Window_fullscreen {
                        Some(d->Window_geometry)
                    } else {
                        d->Window_saved_geometry
                    },
                )
            },
        },
{
    tree.toggle_fullscreen(window_id)
}

/// Calls [`Tree::find_node_by_window_id`].
pub fn find_node_by_window_id(tree: &Tree, window_id: u64) -> (r: Option<NodeId>)
    requires
        tree.wf(),
    ensures
        r == tree.spec_find_window(window_id),
{
    tree.find_node_by_window_id(window_id)
}

/// Calls [`Tree::layout_toggle`].
pub fn layout_toggle(tree: &mut Tree)
    requires
        old(tree).wf(),
    ensures
        final(tree).wf(),
        match old(tree).spec_focused_container() {
            None => *final(tree) == *old(tree),
            Some(c) => final(tree).relayout(
                old(tree),
                c.0 as int,
                next_layout(old(tree).data(c.0 as int)->Container_layout),
            ),
        },
{
    tree.layout_toggle()
}

/// Calls [`Tree::set_sticky`].
pub fn set_sticky(tree: &mut Tree, window_id: u64, enable: bool) -> (r: bool)
    requires
        old(tree).wf(),
    ensures
        final(tree).wf(),
        match old(tree).spec_find_window(window_id) {
            None => !r && *final(tree) == *old(tree),
            Some(w) => {
                let d = old(tree).data(w.0 as int);
                &&& r
                &&& final(tree).only_data_changed(old(tree), w.0 as int)
                &&& final(tree).data(w.0 as int) == window_with(
                    d,
                    d->Window_floating,
                    d->Window_fullscreen,
                    d->Window_fullscreen_global,
                    enable,
                    d->Window_saved_geometry,
                )
            },
        },
{
    tree.set_sticky(window_id, enable)
}

/// Calls [`Tree::toggle_sticky`].
pub fn toggle_sticky(tree: &mut Tree, window_id: u64) -> (r: bool)
    requires
        old(tree).wf(),
    ensures
        final(tree).wf(),
        final(tree).sticky_toggled(old(tree), window_id),
        match old(tree).spec_find_window(window_id) {
            None => !r && *final(tree) == *old(tree),
            Some(w) => {
                let d = old(tree).data(w.0 as int);
                &&& r
                &&& final(tree).only_data_changed(old(tree), w.0 as int)
                &&& final(tree).data(w.0 as int) == window_with(
                    d,
                    d->Window_floating,
                    d->Window_fullscreen,
                    d->Window_fullscreen_global,
                    !d->Window_sticky,
                    d->Window_saved_geometry,
                )
            },
        },
{
    tree.toggle_sticky(window_id)
}

/// Calls [`Tree::add_mark`].
pub fn add_mark(tree: &mut Tree, window_id: u64, mark: &str) -> (r: bool)
    requires
        old(tree).wf(),
    ensures
        final(tree).wf(),
        r == old(tree).spec_find_window(window_id) is Some,
        final(tree).mark_added(old(tree), window_id, mark@),
{
    tree.add_mark(window_id, mark)
}

/// Calls [`Tree::remove_mark`].
pub fn remove_mark(tree: &mut Tree, window_id: u64, mark: Option<&str>) -> (r: bool)
    requires
        old(tree).wf(),
    ensures
        final(tree).wf(),
        r == old(tree).spec_find_window(window_id) is Some,
        final(tree).marks_removed(
            old(tree),
            window_id,
            match mark {
                Some(m) => Some(m@),
                None => None,
            },
        ),
{
    tree.remove_mark(window_id, mark)
}

/// Calls [`Tree::get_marks`].
pub fn get_marks(tree: &Tree, window_id: u64) -> (r: Vec<String>)
    requires
        tree.wf(),
    ensures
        r@.map_values(|s: String| s@) == match tree.spec_find_window(window_id) {
            None => Seq::empty(),
            Some(w) => marks_of(tree.data(w.0 as int)),
        },
{
    tree.get_marks(window_id)
}

/// Calls [`Tree::set_fullscreen_global`].
pub fn set_fullscreen_global(tree: &mut Tree, window_id: u64, enable: bool) -> (r: bool)
    requires
        old(tree).wf(),
    ensures
        final(tree).wf(),
        match old(tree).spec_find_window(window_id) {
            None => !r && *final(tree) == *old(tree),
            Some(w) => {
                let d = old(tree).data(w.0 as int);
                &&& r
                &&& final(tree).only_data_changed(old(tree), w.0 as int)
                &&& final(tree).data(w.0 as int) == window_with(
                    d,
                    d->Window_floating,
                    d->Window_fullscreen,
                    enable,
                    d->Window_sticky,
                    if enable && !d->Window_fullscreen_global {
                        Some(d->Window_geometry)
                    } else {
                        d->Window_saved_geometry
                    },
                )
            },
        },
{
    tree.set_fullscreen_global(window_id, enable)
}

/// Calls [`Tree::toggle_fullscreen_global`].
pub fn toggle_fullscreen_global(tree: &mut Tree, window_id: u64) -> (r: bool)
    requires
        old(tree).wf(),
    ensures
        final(tree).wf(),
        match old(tree).spec_find_window(window_id) {
            None => !r && *final(tree) == *old(tree),
            Some(w) => {
                let d = old(tree).data(w.0 as int);
                &&& r
                &&& final(tree).only_data_changed(old(tree), w.0 as int)
                &&& final(tree).data(w.0 as int) == window_with(
                    d,
                    d->Window_floating,
                    d->Window_fullscreen,
                    !d->Window_fullscreen_global,
                    d->Window_sticky,
                    if !d->Window_fullscreen_global {
                        Some(d->Window_geometry)
                    } else {
                        d->Window_saved_geometry
                    },
                )
            },
        },
{
    tree.toggle_fullscreen_global(window_id)
}

/// Calls [`Tree::swap_containers`].
pub fn swap_containers(tree: &mut Tree, node_a: NodeId, node_b: NodeId) -> (r: bool)
    requires
        old(tree).wf(),
    ensures
        final(tree).wf(),
        r == old(tree).spec_swap(node_a, node_b) is Some,
        final(tree).siblings_swapped(old(tree), node_a, node_b),
{
    tree.swap_containers(node_a, node_b)
}

/// Calls [`Tree::focus_next_sibling`].
pub fn focus_next_sibling(tree: &mut Tree) -> (r: bool)
    requires
        old(tree).wf(),
    ensures
        final(tree).wf(),
        match old(tree).sibling_step(true) {
            Some((p, j)) => if old(tree).is_container(p.0 as int) {
                r && final(tree).refocused(old(tree), p.0 as int, j)
            } else {
                !r && *final(tree) == *old(tree)
            },
            None => !r && *final(tree) == *old(tree),
        },
{
    tree.focus_next_sibling()
}

/// Calls [`Tree::focus_prev_sibling`].
pub fn focus_prev_sibling(tree: &mut Tree) -> (r: bool)
    requires
        old(tree).wf(),
    ensures
        final(tree).wf(),
        match old(tree).sibling_step(false) {
            Some((p, j)) => if old(tree).is_container(p.0 as int) {
                r && final(tree).refocused(old(tree), p.0 as int, j)
            } else {
                !r && *final(tree) == *old(tree)
            },
            None => !r && *final(tree) == *old(tree),
        },
{
    tree.focus_prev_sibling()
}

} // verus!
