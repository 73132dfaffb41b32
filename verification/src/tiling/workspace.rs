//! Workspaces as free functions over a [`Tree`]: outputs, workspaces,
//! switching, listing, spanning and renaming (each the method of the same
//! behaviour on the tree).

use super::tree::{NodeData, NodeId, Rect, Tree};
use vstd::prelude::*;

verus! {

/// Calls [`Tree::add_output`].
pub fn add_output(tree: &mut Tree, name: &str, geometry: Rect) -> (id: NodeId)
    requires
        old(tree).wf(),
        old(tree).room() >= 1,
    ensures
        final(tree).wf(),
        final(tree).live(id.0 as int),
        !old(tree).live(id.0 as int),
        final(tree).node(id.0 as int).parent_of() == Some(old(tree).root_id()),
        final(tree).kids(id.0 as int) == Seq::<NodeId>::empty(),
        final(tree).data(id.0 as int) matches NodeData::Output { name: n, geometry: g }
            && n@ == name@ && g == geometry,
        final(tree).kids(0) == old(tree).kids(0).push(id),
        final(tree).same_slots_except(old(tree), set![id.0 as int, 0]),
        final(tree).slots().len() >= old(tree).slots().len(),
        final(tree).room() == old(tree).room() - 1,
{
    tree.add_output(name, geometry)
}

/// Calls [`Tree::add_workspace`].
pub fn add_workspace(tree: &mut Tree, output: NodeId, name: &str) -> (id: NodeId)
    requires
        old(tree).wf(),
        old(tree).live(output.0 as int),
        old(tree).room() >= 1,
    ensures
        final(tree).wf(),
        final(tree).room() >= old(tree).room() - 1,
        final(tree).workspace_added(old(tree), output, name@, id),
        final(tree).ws_named(id.0 as int, name@),
        final(tree).live(output.0 as int),
        final(tree).kids(output.0 as int).contains(id),
        final(tree).root_id() == old(tree).root_id(),
        final(tree).focus() == old(tree).focus(),
        forall|j: int|
            #[trigger] old(tree).live(j) ==> final(tree).live(j) && final(tree).data(j) == old(tree).data(j),
        forall|j: int|
            #[trigger] old(tree).live(j) && j != output.0 ==> final(tree).kids(j) == old(tree).kids(j),
        final(tree).kids(output.0 as int) == old(tree).kids(output.0 as int)
            || final(tree).kids(output.0 as int) == old(tree).kids(output.0 as int).push(id),
        forall|j: int| #[trigger] final(tree).live(j) && !old(tree).live(j) ==> j == id.0,
{
    tree.add_workspace(output, name)
}

/// Calls [`Tree::focused_workspace`].
pub fn get_focused_workspace(tree: &Tree) -> (r: Option<NodeId>)
    ensures
        r == tree.spec_focused_workspace(),
{
    tree.focused_workspace()
}

/// Calls [`Tree::switch_workspace`].
pub fn switch_workspace(tree: &mut Tree, name: &str) -> (r: bool)
    requires
        old(tree).wf(),
    ensures
        final(tree).wf(),
        match old(tree).spec_find_workspace(name@) {
            None => !r && *final(tree) == *old(tree),
            Some(p) => r && final(tree).visibility_set(
                old(tree),
                p.1.0 as int,
                p.0,
                old(tree).children_view(p.1.0 as int).len() as int,
            ),
        },
{
    tree.switch_workspace(name)
}

/// Calls [`Tree::workspaces`].
pub fn get_workspaces(tree: &Tree) -> (r: Vec<(NodeId, String, bool)>)
    ensures
        r@.map_values(|e: (NodeId, String, bool)| (e.0, e.1@, e.2)) == tree.ws_entries(
            tree.level2(),
        ),
{
    tree.workspaces()
}

/// Calls [`Tree::span_workspace`].
pub fn span_workspace_outputs(tree: &mut Tree, workspace: NodeId, outputs: &[NodeId]) -> (r: bool)
    requires
        old(tree).wf(),
        old(tree).room() >= outputs@.len(),
    ensures
        final(tree).wf(),
        !old(tree).is_ws(workspace.0 as int) ==> !r && *final(tree) == *old(tree),
        old(tree).is_ws(workspace.0 as int) ==> ({
            let name = old(tree).data(workspace.0 as int)->Workspace_name@;
            let wo = old(tree).data(workspace.0 as int)->Workspace_output;
            &&& r == exists|k: int|
                0 <= k < outputs@.len() && old(tree).span_target(#[trigger] outputs@[k], wo)
                    && !old(tree).has_ws_named(outputs@[k].0 as int, name)
            &&& forall|k: int|
                0 <= k < outputs@.len() && old(tree).span_target(#[trigger] outputs@[k], wo)
                    ==> final(tree).has_ws_named(outputs@[k].0 as int, name)
            &&& forall|j: int| #[trigger] old(tree).live(j) ==> final(tree).live(j)
        }),
{
    tree.span_workspace(workspace, outputs)
}

/// Calls [`Tree::rename_workspace`].
pub fn rename_workspace(tree: &mut Tree, old_name: &str, new_name: &str) -> (r: bool)
    requires
        old(tree).wf(),
    ensures
        final(tree).wf(),
        r == old(tree).spec_find_workspace(old_name@) is Some,
        final(tree).workspace_renamed(old(tree), old_name@, new_name@),
{
    tree.rename_workspace(old_name, new_name)
}

} // verus!
