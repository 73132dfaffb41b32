//! Checks of workspaces: creating, switching, listing, naming and
//! renaming them, several outputs, and their configuration.

use super::{
    any, check, fail, has_string, infos, insert_all, lemma_exists_image, opt_is, parsed, parsed_config, reg, reg_fn, try_insert,
    unparsed, verdict, workspace_tree,
};
use super::config::firefox_to_two;
use crate::config::types::{AssignRule, WorkspaceConfig, WorkspaceModel};
use crate::harness::suite::{Category, Harness, Priority, TestFn, TestInfo, TestStatus};
use crate::text::str_eq;
use crate::tiling::commands::remove_window;
use crate::tiling::layout::get_window_geometries;
use crate::tiling::tree::{NodeId, Rect, Tree};
use crate::tiling::workspace::{
    add_output, add_workspace, get_focused_workspace, get_workspaces, rename_workspace, span_workspace_outputs,
    switch_workspace,
};
use vstd::prelude::*;

verus! {

/// The workspace checks whose work stands outside the library: one reads a
/// workspace record back from its JSON form, whose encoding stands outside
/// the library; the other moves a window to another workspace, which needs
/// every way of taking the window out of its place to leave room for it on
/// the target, which no function of the library decides beforehand.
pub struct WorkspaceOuterChecks {
    /// A focused workspace record says so in JSON.
    pub workspace_focused_via_ipc: TestFn,
    /// A window moves to another workspace.
    pub workspace_move_to: TestFn,
}

/// A tree with one 1920x1080 output `eDP-1` and no workspace.
fn output_tree() -> (r: Option<(Tree, NodeId)>)
    ensures
        r matches Some((t, o)) ==> t.wf() && t.live(o.0 as int),
{
    let mut tree = Tree::new();
    if !tree.has_room(1) {
        return None;
    }
    let out = add_output(&mut tree, "eDP-1", Rect::new(0, 0, 1920, 1080));
    Some((tree, out))
}

/// A tree with the outputs `eDP-1` (1920x1080) and `HDMI-1` (2560x1440).
fn two_output_tree() -> (r: Option<(Tree, NodeId, NodeId)>)
    ensures
        r matches Some((t, o1, o2)) ==> t.wf() && t.live(o1.0 as int) && t.live(o2.0 as int),
{
    let mut tree = Tree::new();
    if !tree.has_room(2) {
        return None;
    }
    let ghost t0 = tree;
    let out1 = add_output(&mut tree, "eDP-1", Rect::new(0, 0, 1920, 1080));
    assert(out1.0 != 0) by {
        t0.lemma_wf_root();
    }
    let ghost t1 = tree;
    proof {
        t1.lemma_wf_root();
    }
    let out2 = add_output(&mut tree, "HDMI-1", Rect::new(1920, 0, 2560, 1440));
    assert(out1 != out2);
    assert(tree.slots()[out1.0 as int] == t1.slots()[out1.0 as int]);
    Some((tree, out1, out2))
}

/// Adds workspace `name` on `out` where there is room.
fn add_ws(tree: &mut Tree, out: NodeId, name: &str) -> (r: Option<NodeId>)
    requires
        old(tree).wf(),
        old(tree).live(out.0 as int),
    ensures
        final(tree).wf(),
        final(tree).live(out.0 as int),
        forall|j: int| #[trigger] old(tree).live(j) ==> final(tree).live(j),
{
    if !tree.has_room(1) {
        return None;
    }
    Some(add_workspace(tree, out, name))
}

/// Whether a listed workspace is called `name`.
fn lists(list: &Vec<(NodeId, String, bool)>, name: &str) -> (b: bool) {
    let mut i: usize = 0;
    while i < list.len()
        decreases list.len() - i,
    {
        if str_eq(list[i].1.as_str(), name) {
            return true;
        }
        i = i + 1;
    }
    false
}

/// Whether the first listed workspace called `name` is visible; `dflt` where
/// none is.
fn visible_in(list: &Vec<(NodeId, String, bool)>, name: &str, dflt: bool) -> (b: bool) {
    let mut i: usize = 0;
    while i < list.len()
        decreases list.len() - i,
    {
        if str_eq(list[i].1.as_str(), name) {
            return list[i].2;
        }
        i = i + 1;
    }
    dflt
}

/// Workspace `5` bound to output `DP-1`.
pub open spec fn five_on_dp(w: WorkspaceModel) -> bool {
    w.name == "5"@ && exists|i: int| 0 <= i < w.outputs.len() && w.outputs[i] == "DP-1"@
}

/// A created workspace is a node of the tree.
fn test_create_workspace() -> (s: TestStatus) {
    let (mut tree, out) = match output_tree() {
        Some(p) => p,
        None => return fail("no room for the output"),
    };
    match add_ws(&mut tree, out, "1") {
        Some(ws) => verdict(tree.get(ws).is_some(), "workspace node not created"),
        None => fail("no room for the workspace"),
    }
}

/// Switching to an existing workspace succeeds.
fn test_switch_workspace() -> (s: TestStatus) {
    let (mut tree, out) = match output_tree() {
        Some(p) => p,
        None => return fail("no room for the output"),
    };
    if add_ws(&mut tree, out, "1").is_none() || add_ws(&mut tree, out, "2").is_none() {
        return fail("no room for the workspaces");
    }
    verdict(switch_workspace(&mut tree, "2"), "switch_workspace returned false")
}

/// Three workspaces are listed.
fn test_workspace_list() -> (s: TestStatus) {
    let (mut tree, out) = match output_tree() {
        Some(p) => p,
        None => return fail("no room for the output"),
    };
    if add_ws(&mut tree, out, "1").is_none() || add_ws(&mut tree, out, "2").is_none() || add_ws(
        &mut tree,
        out,
        "3",
    ).is_none() {
        return fail("no room for the workspaces");
    }
    let list = get_workspaces(&tree);
    verdict(list.len() == 3, "expected 3 workspaces")
}

/// Adding a workspace name twice gives the same node.
fn test_workspace_dedup() -> (s: TestStatus) {
    let (mut tree, out) = match output_tree() {
        Some(p) => p,
        None => return fail("no room for the output"),
    };
    let ws1 = match add_ws(&mut tree, out, "1") {
        Some(w) => w,
        None => return fail("no room for the workspace"),
    };
    let ws2 = match add_ws(&mut tree, out, "1") {
        Some(w) => w,
        None => return fail("no room for the workspace"),
    };
    verdict(ws1.0 == ws2.0, "duplicate workspace created")
}

/// Switching shows the new workspace and hides the old one.
fn test_switch_hides_others() -> (s: TestStatus) {
    let (mut tree, out) = match output_tree() {
        Some(p) => p,
        None => return fail("no room for the output"),
    };
    if add_ws(&mut tree, out, "1").is_none() || add_ws(&mut tree, out, "2").is_none() {
        return fail("no room for the workspaces");
    }
    switch_workspace(&mut tree, "2");
    let list = get_workspaces(&tree);
    let ws1_visible = visible_in(&list, "1", true);
    let ws2_visible = visible_in(&list, "2", false);
    verdict(!ws1_visible && ws2_visible, "visibility wrong")
}

/// A workspace on each of two outputs: both are listed.
fn test_workspace_multi_output() -> (s: TestStatus) {
    let (mut tree, out1, out2) = match two_output_tree() {
        Some(p) => p,
        None => return fail("no room for the outputs"),
    };
    if add_ws(&mut tree, out1, "1").is_none() || add_ws(&mut tree, out2, "2").is_none() {
        return fail("no room for the workspaces");
    }
    let list = get_workspaces(&tree);
    verdict(list.len() == 2, "expected 2 workspaces")
}

/// A workspace spans a second output.
fn test_span_workspace_outputs() -> (s: TestStatus) {
    let (mut tree, out1, out2) = match two_output_tree() {
        Some(p) => p,
        None => return fail("no room for the outputs"),
    };
    let ws = match add_ws(&mut tree, out1, "shared") {
        Some(w) => w,
        None => return fail("no room for the workspace"),
    };
    if !tree.has_room(1) {
        return fail("no room for the span");
    }
    let outs: [NodeId; 1] = [out2];
    verdict(span_workspace_outputs(&mut tree, ws, &outs), "span_workspace_outputs returned false")
}

/// Three windows on a workspace are all there.
fn test_workspace_window_count() -> (s: TestStatus) {
    let mut tree = match workspace_tree() {
        Some(t) => t,
        None => return fail("no room for the windows"),
    };
    let ids: [u64; 3] = [1, 2, 3];
    if !insert_all(&mut tree, &ids) {
        return fail("no room for the windows");
    }
    let geoms = get_window_geometries(&tree);
    verdict(geoms.len() == 3, "expected 3 windows")
}

/// A numbered workspace is listed by its number.
fn test_workspace_numbering() -> (s: TestStatus) {
    let (mut tree, out) = match output_tree() {
        Some(p) => p,
        None => return fail("no room for the output"),
    };
    if add_ws(&mut tree, out, "3").is_none() {
        return fail("no room for the workspace");
    }
    let list = get_workspaces(&tree);
    verdict(lists(&list, "3"), "workspace '3' not found")
}

/// Two `workspace ... output` lines give two bindings.
pub fn test_workspace_output_binding_config() -> (s: TestStatus)
    ensures
        s@ is Pass <==> (parsed_config("workspace 1 output eDP-1\nworkspace 2 output HDMI-1"@) matches Some(c) && c.workspaces.len() == 2),
{
    match parsed("workspace 1 output eDP-1\nworkspace 2 output HDMI-1") {
        Some(config) => verdict(config.workspaces.len() == 2, "expected 2 workspace bindings"),
        None => unparsed(),
    }
}

/// `workspace_auto_back_and_forth yes` turns it on.
pub fn test_workspace_auto_back_and_forth() -> (s: TestStatus)
    ensures
        s@ is Pass <==> (parsed_config("workspace_auto_back_and_forth yes"@) matches Some(c) && c.workspace_auto_back_and_forth),
{
    match parsed("workspace_auto_back_and_forth yes") {
        Some(config) => verdict(config.workspace_auto_back_and_forth, "workspace_auto_back_and_forth not enabled"),
        None => unparsed(),
    }
}

/// A renamed workspace is listed by its new name.
fn test_workspace_rename() -> (s: TestStatus) {
    let (mut tree, out) = match output_tree() {
        Some(p) => p,
        None => return fail("no room for the output"),
    };
    if add_ws(&mut tree, out, "old_name").is_none() {
        return fail("no room for the workspace");
    }
    if !rename_workspace(&mut tree, "old_name", "new_name") {
        return fail("rename_workspace returned false");
    }
    let list = get_workspaces(&tree);
    verdict(lists(&list, "new_name"), "renamed workspace not found")
}

/// `assign [app_id="firefox"] workspace 2` adds that rule.
pub fn test_workspace_assign() -> (s: TestStatus)
    ensures
        s@ is Pass <==> (parsed_config("assign [app_id=\"firefox\"] workspace 2"@) matches Some(c)
            && exists|i: int| 0 <= i < c.assigns.len() && firefox_to_two(c.assigns[i])),
{
    match parsed("assign [app_id=\"firefox\"] workspace 2") {
        Some(config) => {
            let pred = |x: &AssignRule| -> (b: bool)
                ensures
                    b == firefox_to_two(*x),
                {
                    opt_is(&x.criteria.app_id, "firefox") && str_eq(x.workspace.as_str(), "2")
                };
            let ghost f: spec_fn(AssignRule) -> AssignRule = |x: AssignRule| x;
            let ghost q: spec_fn(AssignRule) -> bool = |m: AssignRule| firefox_to_two(m);
            let found = any::<AssignRule, AssignRule, _>(&config.assigns, pred, Ghost(f), Ghost(q));
            proof {
                lemma_exists_image(config.assigns@, config@.assigns, f, q);
            }
            verdict(found, "assign rule not parsed")
        },
        None => unparsed(),
    }
}

/// Urgency of workspaces is not implemented.
pub fn test_workspace_urgent() -> (s: TestStatus)
    ensures
        s@ is NotImplemented,
{
    TestStatus::NotImplemented
}

/// A workspace may have a name that is not a number.
fn test_workspace_naming() -> (s: TestStatus) {
    let (mut tree, out) = match output_tree() {
        Some(p) => p,
        None => return fail("no room for the output"),
    };
    if add_ws(&mut tree, out, "web").is_none() {
        return fail("no room for the workspace");
    }
    let list = get_workspaces(&tree);
    verdict(lists(&list, "web"), "workspace 'web' not found")
}

/// Switching to a workspace that does not exist fails.
fn test_workspace_switch_nonexistent() -> (s: TestStatus) {
    let (mut tree, out) = match output_tree() {
        Some(p) => p,
        None => return fail("no room for the output"),
    };
    if add_ws(&mut tree, out, "1").is_none() {
        return fail("no room for the workspace");
    }
    verdict(!switch_workspace(&mut tree, "nonexistent"), "switch to nonexistent workspace should return false")
}

/// After a switch exactly one workspace of the output is visible.
fn test_workspace_visibility_tracking() -> (s: TestStatus) {
    let (mut tree, out) = match output_tree() {
        Some(p) => p,
        None => return fail("no room for the output"),
    };
    if add_ws(&mut tree, out, "1").is_none() || add_ws(&mut tree, out, "2").is_none() {
        return fail("no room for the workspaces");
    }
    switch_workspace(&mut tree, "2");
    let list = get_workspaces(&tree);
    let mut visible_count: usize = 0;
    let mut i: usize = 0;
    while i < list.len()
        invariant
            visible_count <= i,
        decreases list.len() - i,
    {
        if list[i].2 {
            visible_count = visible_count + 1;
        }
        i = i + 1;
    }
    verdict(visible_count == 1, "expected 1 visible workspace")
}

/// A workspace on an output is focused.
fn test_workspace_get_focused() -> (s: TestStatus) {
    let (mut tree, out) = match output_tree() {
        Some(p) => p,
        None => return fail("no room for the output"),
    };
    if add_ws(&mut tree, out, "1").is_none() {
        return fail("no room for the workspace");
    }
    verdict(get_focused_workspace(&tree).is_some(), "get_focused_workspace returned None")
}

/// A workspace whose only window went holds no window.
fn test_workspace_empty_after_remove() -> (s: TestStatus) {
    let mut tree = match workspace_tree() {
        Some(t) => t,
        None => return fail("no room for the window"),
    };
    if try_insert(&mut tree, 1).is_none() {
        return fail("no room for the window");
    }
    remove_window(&mut tree, 1);
    let geoms = get_window_geometries(&tree);
    verdict(geoms.len() == 0, "expected 0 windows")
}

/// `workspace 5 output DP-1` binds the workspace to the output.
pub fn test_workspace_output_config() -> (s: TestStatus)
    ensures
        s@ is Pass <==> (parsed_config("workspace 5 output DP-1"@) matches Some(c)
            && exists|i: int| 0 <= i < c.workspaces.len() && five_on_dp(c.workspaces[i])),
{
    match parsed("workspace 5 output DP-1") {
        Some(config) => {
            let pred = |x: &WorkspaceConfig| -> (b: bool)
                ensures
                    b == five_on_dp(x@),
                {
                    let n = str_eq(x.name.as_str(), "5");
                    let h = has_string(&x.outputs, "DP-1");
                    proof {
                        let w = x@;
                        if h {
                            let i = choose|i: int| 0 <= i < x.outputs@.len() && x.outputs@[i]@ == "DP-1"@;
                            assert(w.outputs[i] == "DP-1"@);
                        }
                        if exists|i: int| 0 <= i < w.outputs.len() && w.outputs[i] == "DP-1"@ {
                            let i = choose|i: int| 0 <= i < w.outputs.len() && w.outputs[i] == "DP-1"@;
                            assert(x.outputs@[i]@ == "DP-1"@);
                        }
                    }
                    n && h
                };
            let ghost f: spec_fn(WorkspaceConfig) -> WorkspaceModel = |x: WorkspaceConfig| x@;
            let ghost q: spec_fn(WorkspaceModel) -> bool = |m: WorkspaceModel| five_on_dp(m);
            let found = any::<WorkspaceConfig, WorkspaceModel, _>(&config.workspaces, pred, Ghost(f), Ghost(q));
            proof {
                lemma_exists_image(config.workspaces@, config@.workspaces, f, q);
            }
            verdict(found, "workspace output config not parsed")
        },
        None => unparsed(),
    }
}

/// The workspace checks, in the order that [`register`] adds them.
pub open spec fn workspace_checks() -> Seq<TestInfo> {
    seq![
        check(Category::Workspace, "create_workspace"@, "workspace creation"@, Priority::P0),
        check(Category::Workspace, "switch_workspace"@, "workspace switching"@, Priority::P0),
        check(Category::Workspace, "workspace_list"@, "get_workspaces"@, Priority::P0),
        check(Category::Workspace, "workspace_dedup"@, "workspace dedup"@, Priority::P0),
        check(Category::Workspace, "switch_hides_others"@, "workspace visibility"@, Priority::P0),
        check(Category::Workspace, "workspace_multi_output"@, "multi-output workspaces"@, Priority::P1),
        check(Category::Workspace, "span_workspace_outputs"@, "workspace spanning"@, Priority::P2),
        check(Category::Workspace, "workspace_window_count"@, "workspace windows"@, Priority::P0),
        check(Category::Workspace, "workspace_numbering"@, "workspace numbering"@, Priority::P0),
        check(Category::Workspace, "workspace_focused_via_ipc"@, "workspace focused field"@, Priority::P0),
        check(Category::Workspace, "workspace_output_binding_config"@, "workspace output binding"@, Priority::P0),
        check(Category::Workspace, "workspace_auto_back_and_forth"@, "workspace_auto_back_and_forth"@, Priority::P1),
        check(Category::Workspace, "workspace_rename"@, "rename workspace"@, Priority::P1),
        check(Category::Workspace, "workspace_assign"@, "assign [criteria] workspace"@, Priority::P1),
        check(Category::Workspace, "workspace_move_to"@, "move container to workspace"@, Priority::P0),
        check(Category::Workspace, "workspace_urgent"@, "urgent workspace"@, Priority::P2),
        check(Category::Workspace, "workspace_naming"@, "workspace naming"@, Priority::P0),
        check(Category::Workspace, "workspace_switch_nonexistent"@, "workspace switch nonexistent"@, Priority::P0),
        check(Category::Workspace, "workspace_visibility_tracking"@, "workspace visibility tracking"@, Priority::P0),
        check(Category::Workspace, "workspace_get_focused"@, "get focused workspace"@, Priority::P0),
        check(Category::Workspace, "workspace_empty_after_remove"@, "workspace empty after remove"@, Priority::P0),
        check(Category::Workspace, "workspace_output_config"@, "workspace output config"@, Priority::P1),
    ]
}

/// Registers the workspace checks after those the harness holds.
#[verifier::rlimit(60)]
pub fn register(harness: &mut Harness, outer: WorkspaceOuterChecks)
    ensures
        infos(final(harness).tests()) == infos(old(harness).tests()) + workspace_checks(),
{
    reg(harness, Category::Workspace, "create_workspace", "创建工作区", "workspace creation", Priority::P0, test_create_workspace);
    reg(harness, Category::Workspace, "switch_workspace", "切换工作区", "workspace switching", Priority::P0, test_switch_workspace);
    reg(harness, Category::Workspace, "workspace_list", "列出所有工作区", "get_workspaces", Priority::P0, test_workspace_list);
    reg(harness, Category::Workspace, "workspace_dedup", "同名工作区不重复创建", "workspace dedup", Priority::P0, test_workspace_dedup);
    reg(harness, Category::Workspace, "switch_hides_others", "切换工作区隐藏同输出其他工作区", "workspace visibility", Priority::P0, test_switch_hides_others);
    reg(harness, Category::Workspace, "workspace_multi_output", "多输出各自独立管理工作区", "multi-output workspaces", Priority::P1, test_workspace_multi_output);
    reg(harness, Category::Workspace, "span_workspace_outputs", "工作区跨输出扩展", "workspace spanning", Priority::P2, test_span_workspace_outputs);
    reg(harness, Category::Workspace, "workspace_window_count", "工作区内窗口数量正确", "workspace windows", Priority::P0, test_workspace_window_count);
    reg(harness, Category::Workspace, "workspace_numbering", "工作区编号", "workspace numbering", Priority::P0, test_workspace_numbering);
    reg_fn(harness, Category::Workspace, "workspace_focused_via_ipc", "IPC 工作区 focused 字段", "workspace focused field", Priority::P0, outer.workspace_focused_via_ipc);
    reg(harness, Category::Workspace, "workspace_output_binding_config", "工作区绑定输出配置解析", "workspace output binding", Priority::P0, test_workspace_output_binding_config);
    reg(harness, Category::Workspace, "workspace_auto_back_and_forth", "工作区自动来回切换", "workspace_auto_back_and_forth", Priority::P1, test_workspace_auto_back_and_forth);
    reg(harness, Category::Workspace, "workspace_rename", "重命名工作区", "rename workspace", Priority::P1, test_workspace_rename);
    reg(harness, Category::Workspace, "workspace_assign", "按条件分配工作区", "assign [criteria] workspace", Priority::P1, test_workspace_assign);
    reg_fn(harness, Category::Workspace, "workspace_move_to", "移动容器到工作区", "move container to workspace", Priority::P0, outer.workspace_move_to);
    reg(harness, Category::Workspace, "workspace_urgent", "紧急工作区", "urgent workspace", Priority::P2, test_workspace_urgent);
    reg(harness, Category::Workspace, "workspace_naming", "命名工作区创建与查询", "workspace naming", Priority::P0, test_workspace_naming);
    reg(harness, Category::Workspace, "workspace_switch_nonexistent", "切换到不存在的工作区返回 false", "workspace switch nonexistent", Priority::P0, test_workspace_switch_nonexistent);
    reg(harness, Category::Workspace, "workspace_visibility_tracking", "工作区可见性追踪", "workspace visibility tracking", Priority::P0, test_workspace_visibility_tracking);
    reg(harness, Category::Workspace, "workspace_get_focused", "获取当前聚焦工作区", "get focused workspace", Priority::P0, test_workspace_get_focused);
    reg(harness, Category::Workspace, "workspace_empty_after_remove", "移除所有窗口后工作区为空", "workspace empty after remove", Priority::P0, test_workspace_empty_after_remove);
    reg(harness, Category::Workspace, "workspace_output_config", "解析 workspace N output NAME 配置", "workspace output config", Priority::P1, test_workspace_output_config);
    assert(infos(harness.tests()) =~= infos(old(harness).tests()) + workspace_checks());
}

} // verus!
