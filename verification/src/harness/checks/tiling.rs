//! Checks of tiling: split layouts, gaps, tabbed and stacked containers,
//! focus and movement, resizing and layout changes.

use super::{
    check, fail, geometry_of, infos, insert_all, laid_out, opt_is, parsed, parsed_config, reg, reg_fn, try_insert,
    unparsed, verdict, workspace_tree,
};
use crate::harness::suite::{Category, Harness, Priority, TestFn, TestInfo, TestStatus};
use crate::tiling::commands::{
    find_focused_window_id, focus_child, focus_next_sibling, focus_parent, focus_prev_sibling, layout_toggle,
    find_node_by_window_id, move_focus, move_window, remove_window, resize_container, set_fullscreen, split,
    toggle_fullscreen,
};
use crate::tiling::container::{make_container, set_container_layout};
use crate::tiling::layout::{compute_layout, get_window_geometries};
use crate::tiling::tree::{Direction, GapsConfig, Layout, NodeData, Rect, ResizeAxis, Tree};
use crate::tiling::workspace::{add_output, add_workspace, get_focused_workspace, get_workspaces};
use vstd::prelude::*;

verus! {

/// The tiling check whose work stands outside the library: the size
/// normalisation works on floating-point weights.
pub struct TilingOuterChecks {
    /// Normalised sizes sum to one.
    pub normalize_sizes: TestFn,
}

/// Two windows in a tree on one screen.
fn two_window_tree() -> (r: Option<Tree>)
    ensures
        r matches Some(t) ==> t.wf(),
{
    let mut tree = match workspace_tree() {
        Some(t) => t,
        None => return None,
    };
    let ids: [u64; 2] = [1, 2];
    if !insert_all(&mut tree, &ids) {
        return None;
    }
    Some(tree)
}

/// Two windows side by side share the width and have the full height.
fn test_splith_two_windows() -> (s: TestStatus) {
    let mut tree = match two_window_tree() {
        Some(t) => t,
        None => return fail("no room for the windows"),
    };
    let geoms = laid_out(&mut tree);
    if geoms.len() != 2 {
        return fail("expected 2 windows");
    }
    match (geometry_of(&geoms, 1), geometry_of(&geoms, 2)) {
        (Some(w1), Some(w2)) => verdict(
            w1.width as i64 + w2.width as i64 == 1920 && w1.height == 1080 && w2.height == 1080,
            "SplitH layout incorrect",
        ),
        _ => fail("window geometry missing"),
    }
}

/// Two windows stacked vertically share the height and have the full width.
fn test_splitv_two_windows() -> (s: TestStatus) {
    let mut tree = match two_window_tree() {
        Some(t) => t,
        None => return fail("no room for the windows"),
    };
    split(&mut tree, Layout::SplitV);
    let geoms = laid_out(&mut tree);
    if geoms.len() != 2 {
        return fail("expected 2 windows");
    }
    match (geometry_of(&geoms, 1), geometry_of(&geoms, 2)) {
        (Some(w1), Some(w2)) => verdict(
            w1.height as i64 + w2.height as i64 == 1080 && w1.width == 1920 && w2.width == 1920,
            "SplitV layout incorrect",
        ),
        _ => fail("window geometry missing"),
    }
}

/// A second window makes a container and both are laid out.
fn test_insert_creates_container() -> (s: TestStatus) {
    let mut tree = match two_window_tree() {
        Some(t) => t,
        None => return fail("no room for the windows"),
    };
    let geoms = laid_out(&mut tree);
    verdict(geoms.len() == 2, "expected 2 windows after container creation")
}

/// Inner gaps leave the two windows narrower than the screen together.
fn test_gaps_inner() -> (s: TestStatus) {
    let mut tree = match two_window_tree() {
        Some(t) => t,
        None => return fail("no room for the windows"),
    };
    let root = tree.root();
    let gaps = GapsConfig { inner: 10, outer: 0 };
    compute_layout(&mut tree, root, Rect::new(0, 0, 1920, 1080), &gaps);
    let geoms = get_window_geometries(&tree);
    if geoms.len() != 2 {
        return fail("expected 2 windows");
    }
    match (geometry_of(&geoms, 1), geometry_of(&geoms, 2)) {
        (Some(w1), Some(w2)) => verdict(1920 > (w1.width as i64) + (w2.width as i64), "inner gaps not applied"),
        _ => fail("window geometry missing"),
    }
}

/// Outer gaps keep a lone window off the screen edges.
fn test_gaps_outer() -> (s: TestStatus) {
    let mut tree = match workspace_tree() {
        Some(t) => t,
        None => return fail("no room for the window"),
    };
    if try_insert(&mut tree, 1).is_none() {
        return fail("no room for the window");
    }
    let root = tree.root();
    let gaps = GapsConfig { inner: 0, outer: 20 };
    compute_layout(&mut tree, root, Rect::new(0, 0, 1920, 1080), &gaps);
    let geoms = get_window_geometries(&tree);
    if geoms.len() != 1 {
        return fail("expected 1 window");
    }
    let w = geoms[0].1;
    verdict(w.width <= 1920 - 40 + 1 && w.height <= 1080 - 40 + 1, "outer gaps not applied")
}

/// A tabbed container still lays out its windows.
fn test_tabbed_layout() -> (s: TestStatus) {
    let mut tree = match two_window_tree() {
        Some(t) => t,
        None => return fail("no room for the windows"),
    };
    split(&mut tree, Layout::Tabbed);
    let geoms = laid_out(&mut tree);
    verdict(geoms.len() > 0, "tabbed layout produced no windows")
}

/// A stacked container still lays out its windows.
fn test_stacked_layout() -> (s: TestStatus) {
    let mut tree = match two_window_tree() {
        Some(t) => t,
        None => return fail("no room for the windows"),
    };
    split(&mut tree, Layout::Stacked);
    let geoms = laid_out(&mut tree);
    verdict(geoms.len() > 0, "stacked layout produced no windows")
}

/// Three windows all get a non-empty area.
fn test_three_windows_equal() -> (s: TestStatus) {
    let mut tree = match workspace_tree() {
        Some(t) => t,
        None => return fail("no room for the windows"),
    };
    let ids: [u64; 3] = [1, 2, 3];
    if !insert_all(&mut tree, &ids) {
        return fail("no room for the windows");
    }
    let geoms = laid_out(&mut tree);
    if geoms.len() < 3 {
        return fail("expected 3 windows");
    }
    let mut all_valid = true;
    let mut i: usize = 0;
    while i < geoms.len()
        decreases geoms.len() - i,
    {
        if !(geoms[i].1.width > 0 && geoms[i].1.height > 0) {
            all_valid = false;
        }
        i = i + 1;
    }
    verdict(all_valid, "some windows have zero dimensions")
}

/// After one of two windows goes, the other fills the screen.
fn test_remove_window_reclaims_space() -> (s: TestStatus) {
    let mut tree = match two_window_tree() {
        Some(t) => t,
        None => return fail("no room for the windows"),
    };
    remove_window(&mut tree, 1);
    let geoms = laid_out(&mut tree);
    if geoms.len() != 1 {
        return fail("expected 1 window");
    }
    let w = geoms[0].1;
    verdict(w.width == 1920 && w.height == 1080, "remaining window didn't reclaim space")
}

/// Three inserted windows are all in the tree.
fn test_nested_containers() -> (s: TestStatus) {
    let mut tree = match workspace_tree() {
        Some(t) => t,
        None => return fail("no room for the windows"),
    };
    let ids: [u64; 3] = [1, 2, 3];
    if !insert_all(&mut tree, &ids) {
        return fail("no room for the windows");
    }
    let geoms = get_window_geometries(&tree);
    verdict(geoms.len() == 3, "expected 3 windows")
}

/// A horizontal and a vertical split together lay out both windows.
fn test_four_windows_quadrant() -> (s: TestStatus) {
    let mut tree = match workspace_tree() {
        Some(t) => t,
        None => return fail("no room for the windows"),
    };
    if try_insert(&mut tree, 1).is_none() {
        return fail("no room for the windows");
    }
    split(&mut tree, Layout::SplitV);
    if try_insert(&mut tree, 2).is_none() {
        return fail("no room for the windows");
    }
    let geoms = laid_out(&mut tree);
    verdict(geoms.len() == 2, "expected 2 windows")
}

/// The layout of the focused workspace's first child can be set.
fn test_set_container_layout_api() -> (s: TestStatus) {
    let mut tree = match two_window_tree() {
        Some(t) => t,
        None => return fail("no room for the windows"),
    };
    match get_focused_workspace(&tree) {
        Some(ws) => {
            if tree.children(ws).len() > 0 {
                let container = tree.children(ws)[0];
                set_container_layout(&mut tree, container, Layout::SplitV);
                TestStatus::Pass
            } else {
                fail("no container found")
            }
        },
        None => fail("no focused workspace"),
    }
}

/// Focus moves to the parent and back to a child.
fn test_focus_parent_child() -> (s: TestStatus) {
    let mut tree = match two_window_tree() {
        Some(t) => t,
        None => return fail("no room for the windows"),
    };
    if !focus_parent(&mut tree) {
        return fail("focus_parent returned false");
    }
    if !focus_child(&mut tree) {
        return fail("focus_child returned false");
    }
    TestStatus::Pass
}

/// Focus cycles to the previous and next sibling.
fn test_sibling_focus_cycling() -> (s: TestStatus) {
    let mut tree = match workspace_tree() {
        Some(t) => t,
        None => return fail("no room for the windows"),
    };
    let ids: [u64; 3] = [1, 2, 3];
    if !insert_all(&mut tree, &ids) {
        return fail("no room for the windows");
    }
    if !focus_prev_sibling(&mut tree) {
        return fail("focus_prev_sibling returned false");
    }
    match find_focused_window_id(&tree) {
        Some(w) => if w != 2 {
            return fail("expected focused=2 after prev");
        },
        None => return fail("expected focused=2 after prev"),
    }
    if !focus_next_sibling(&mut tree) {
        return fail("focus_next_sibling returned false");
    }
    match find_focused_window_id(&tree) {
        Some(w) => verdict(w == 3, "expected focused=3 after next"),
        None => fail("expected focused=3 after next"),
    }
}

/// Two outputs each hold a workspace.
fn test_cross_output_focus() -> (s: TestStatus) {
    let mut tree = Tree::new();
    if !tree.has_room(4) {
        return fail("no room for the outputs");
    }
    let out1 = add_output(&mut tree, "eDP-1", Rect::new(0, 0, 1920, 1080));
    if !tree.has_room(3) {
        return fail("no room for the outputs");
    }
    add_workspace(&mut tree, out1, "1");
    if !tree.has_room(2) {
        return fail("no room for the outputs");
    }
    let out2 = add_output(&mut tree, "HDMI-1", Rect::new(1920, 0, 1920, 1080));
    if !tree.has_room(1) {
        return fail("no room for the outputs");
    }
    add_workspace(&mut tree, out2, "2");
    if try_insert(&mut tree, 1).is_none() {
        return fail("no room for the window");
    }
    let ws_list = get_workspaces(&tree);
    verdict(ws_list.len() == 2, "expected 2 workspaces")
}

/// `focus_wrapping yes` is kept.
pub fn test_focus_wrapping() -> (s: TestStatus)
    ensures
        s@ is Pass <==> (parsed_config("focus_wrapping yes"@) matches Some(c) && c.focus_wrapping == Some("yes"@)),
{
    match parsed("focus_wrapping yes") {
        Some(config) => verdict(opt_is(&config.focus_wrapping, "yes"), "expected focus_wrapping=yes"),
        None => unparsed(),
    }
}

/// Moving the focused window left puts it left of the other.
fn test_directional_move() -> (s: TestStatus) {
    let mut tree = match two_window_tree() {
        Some(t) => t,
        None => return fail("no room for the windows"),
    };
    if !move_window(&mut tree, Direction::Left) {
        return fail("move_window Left returned false");
    }
    let geoms = laid_out(&mut tree);
    match (geometry_of(&geoms, 2), geometry_of(&geoms, 1)) {
        (Some(r2), Some(r1)) => verdict(r2.x < r1.x, "move_window did not swap window positions"),
        _ => fail("move_window did not swap window positions"),
    }
}

/// A window moves out of its container.
fn test_cross_container_move() -> (s: TestStatus) {
    let mut tree = match two_window_tree() {
        Some(t) => t,
        None => return fail("no room for the windows"),
    };
    split(&mut tree, Layout::SplitV);
    if try_insert(&mut tree, 3).is_none() {
        return fail("no room for the window");
    }
    verdict(move_window(&mut tree, Direction::Left), "cross-container move returned false")
}

/// The focused window grows and shrinks along its container.
fn test_resize_grow_shrink() -> (s: TestStatus) {
    let mut tree = match two_window_tree() {
        Some(t) => t,
        None => return fail("no room for the windows"),
    };
    let node_id = match find_focused_window_id(&tree) {
        Some(wid) => match find_node_by_window_id(&tree, wid) {
            Some(nid) => nid,
            None => return fail("focused window node not found"),
        },
        None => return fail("no focused window"),
    };
    if !tree.can_resize(node_id, ResizeAxis::Width, 10) {
        return fail("resize grow does not fit");
    }
    if !resize_container(&mut tree, node_id, ResizeAxis::Width, 10) {
        return fail("resize grow returned false");
    }
    if !tree.can_resize(node_id, ResizeAxis::Width, -10) {
        return fail("resize shrink does not fit");
    }
    if !resize_container(&mut tree, node_id, ResizeAxis::Width, -10) {
        return fail("resize shrink returned false");
    }
    TestStatus::Pass
}

/// Toggling the layout turns side-by-side windows into stacked ones.
fn test_layout_toggle_cycling() -> (s: TestStatus) {
    let mut tree = match two_window_tree() {
        Some(t) => t,
        None => return fail("no room for the windows"),
    };
    layout_toggle(&mut tree);
    let geoms = laid_out(&mut tree);
    if geoms.len() < 2 {
        return fail("expected 2 windows");
    }
    match (geometry_of(&geoms, 1), geometry_of(&geoms, 2)) {
        (Some(w1), Some(w2)) => verdict(w1.width == w2.width && w1.y != w2.y, "layout toggle didn't produce SplitV"),
        _ => fail("window geometry missing"),
    }
}

/// `gaps outer 15` is kept.
pub fn test_per_edge_outer_gaps() -> (s: TestStatus)
    ensures
        s@ is Pass <==> (parsed_config("gaps outer 15"@) matches Some(c) && c.gaps.outer == 15),
{
    match parsed("gaps outer 15") {
        Some(config) => verdict(config.gaps.outer == 15, "expected outer=15"),
        None => unparsed(),
    }
}

/// `smart_gaps on` turns them on.
pub fn test_smart_gaps() -> (s: TestStatus)
    ensures
        s@ is Pass <==> (parsed_config("smart_gaps on"@) matches Some(c) && c.smart_gaps),
{
    match parsed("smart_gaps on") {
        Some(config) => verdict(config.smart_gaps, "smart_gaps not enabled"),
        None => unparsed(),
    }
}

/// A made container has the layout asked for.
pub fn test_make_container_api() -> (s: TestStatus)
    ensures
        s@ is Pass,
{
    match make_container(Layout::Tabbed) {
        NodeData::Container { layout, .. } => verdict(layout == Layout::Tabbed, "expected Tabbed"),
        _ => fail("make_container did not return Container"),
    }
}

/// Inserting a window adds nodes.
fn test_tree_node_count() -> (s: TestStatus) {
    let mut tree = match workspace_tree() {
        Some(t) => t,
        None => return fail("no room for the window"),
    };
    let before = tree.node_count();
    if try_insert(&mut tree, 1).is_none() {
        return fail("no room for the window");
    }
    let after = tree.node_count();
    verdict(after > before, "node_count did not increase")
}

/// Focus cannot move left past the leftmost window.
fn test_move_focus_at_boundary() -> (s: TestStatus) {
    let mut tree = match two_window_tree() {
        Some(t) => t,
        None => return fail("no room for the windows"),
    };
    move_focus(&mut tree, Direction::Left);
    let moved = move_focus(&mut tree, Direction::Left);
    verdict(!moved, "move_focus at boundary should return false")
}

/// Fullscreen can be set and toggled.
fn test_fullscreen_flag_toggle() -> (s: TestStatus) {
    let mut tree = match workspace_tree() {
        Some(t) => t,
        None => return fail("no room for the window"),
    };
    if try_insert(&mut tree, 1).is_none() {
        return fail("no room for the window");
    }
    if !set_fullscreen(&mut tree, 1, true) {
        return fail("set_fullscreen(true) returned false");
    }
    if !toggle_fullscreen(&mut tree, 1) {
        return fail("toggle_fullscreen returned false");
    }
    TestStatus::Pass
}

/// Resizing by dragging with the modifier is not implemented.
pub fn test_mouse_drag_resize() -> (s: TestStatus)
    ensures
        s@ is NotImplemented,
{
    TestStatus::NotImplemented
}

/// The tiling checks, in the order that [`register`] adds them.
pub open spec fn tiling_checks() -> Seq<TestInfo> {
    seq![
        check(Category::Tiling, "splith_two_windows"@, "splith layout"@, Priority::P0),
        check(Category::Tiling, "splitv_two_windows"@, "splitv layout"@, Priority::P0),
        check(Category::Tiling, "insert_creates_container"@, "auto container creation"@, Priority::P0),
        check(Category::Tiling, "gaps_inner"@, "gaps inner"@, Priority::P1),
        check(Category::Tiling, "gaps_outer"@, "gaps outer"@, Priority::P1),
        check(Category::Tiling, "tabbed_layout"@, "tabbed layout"@, Priority::P1),
        check(Category::Tiling, "stacked_layout"@, "stacked layout"@, Priority::P1),
        check(Category::Tiling, "three_windows_equal"@, "equal split"@, Priority::P0),
        check(Category::Tiling, "remove_window_reclaims_space"@, "window removal"@, Priority::P0),
        check(Category::Tiling, "nested_containers"@, "nested containers"@, Priority::P0),
        check(Category::Tiling, "four_windows_quadrant"@, "mixed split layout"@, Priority::P0),
        check(Category::Tiling, "set_container_layout_api"@, "layout splith/splitv"@, Priority::P0),
        check(Category::Tiling, "focus_parent_child"@, "focus parent/child"@, Priority::P0),
        check(Category::Tiling, "sibling_focus_cycling"@, "focus prev/next sibling"@, Priority::P1),
        check(Category::Tiling, "cross_output_focus"@, "focus across outputs"@, Priority::P1),
        check(Category::Tiling, "focus_wrapping"@, "focus_wrapping"@, Priority::P1),
        check(Category::Tiling, "directional_move"@, "move left/right/up/down"@, Priority::P0),
        check(Category::Tiling, "cross_container_move"@, "move across containers"@, Priority::P0),
        check(Category::Tiling, "resize_grow_shrink"@, "resize grow/shrink width/height"@, Priority::P0),
        check(Category::Tiling, "layout_toggle_cycling"@, "layout toggle split/all"@, Priority::P1),
        check(Category::Tiling, "per_edge_outer_gaps"@, "gaps outer top/right/bottom/left"@, Priority::P1),
        check(Category::Tiling, "smart_gaps"@, "smart_gaps on"@, Priority::P1),
        check(Category::Tiling, "normalize_sizes"@, "size normalization"@, Priority::P0),
        check(Category::Tiling, "make_container_api"@, "container creation API"@, Priority::P0),
        check(Category::Tiling, "tree_node_count"@, "tree node counting"@, Priority::P0),
        check(Category::Tiling, "move_focus_at_boundary"@, "focus boundary behavior"@, Priority::P0),
        check(Category::Tiling, "fullscreen_flag_toggle"@, "fullscreen geometry preservation"@, Priority::P0),
        check(Category::Tiling, "mouse_drag_resize"@, "modifier+mouse resize"@, Priority::P0),
    ]
}

/// Registers the tiling checks after those the harness holds.
#[verifier::rlimit(60)]
pub fn register(harness: &mut Harness, outer: TilingOuterChecks)
    ensures
        infos(final(harness).tests()) == infos(old(harness).tests()) + tiling_checks(),
{
    reg(harness, Category::Tiling, "splith_two_windows", "SplitH 布局两个窗口各占一半宽度", "splith layout", Priority::P0, test_splith_two_windows);
    reg(harness, Category::Tiling, "splitv_two_windows", "SplitV 布局两个窗口各占一半高度", "splitv layout", Priority::P0, test_splitv_two_windows);
    reg(harness, Category::Tiling, "insert_creates_container", "插入第二个窗口自动创建 SplitH 容器", "auto container creation", Priority::P0, test_insert_creates_container);
    reg(harness, Category::Tiling, "gaps_inner", "inner gaps 正确应用到窗口间距", "gaps inner", Priority::P1, test_gaps_inner);
    reg(harness, Category::Tiling, "gaps_outer", "outer gaps 正确应用到屏幕边距", "gaps outer", Priority::P1, test_gaps_outer);
    reg(harness, Category::Tiling, "tabbed_layout", "Tabbed 布局只显示聚焦窗口", "tabbed layout", Priority::P1, test_tabbed_layout);
    reg(harness, Category::Tiling, "stacked_layout", "Stacked 布局只显示聚焦窗口", "stacked layout", Priority::P1, test_stacked_layout);
    reg(harness, Category::Tiling, "three_windows_equal", "三个窗口在 SplitH 中等分", "equal split", Priority::P0, test_three_windows_equal);
    reg(harness, Category::Tiling, "remove_window_reclaims_space", "移除窗口后剩余窗口占满空间", "window removal", Priority::P0, test_remove_window_reclaims_space);
    reg(harness, Category::Tiling, "nested_containers", "插入多个窗口形成嵌套容器层级", "nested containers", Priority::P0, test_nested_containers);
    reg(harness, Category::Tiling, "four_windows_quadrant", "SplitH + SplitV 形成四象限布局", "mixed split layout", Priority::P0, test_four_windows_quadrant);
    reg(harness, Category::Tiling, "set_container_layout_api", "通过 API 设置容器布局方向", "layout splith/splitv", Priority::P0, test_set_container_layout_api);
    reg(harness, Category::Tiling, "focus_parent_child", "focus parent/child 在容器层级间切换", "focus parent/child", Priority::P0, test_focus_parent_child);
    reg(harness, Category::Tiling, "sibling_focus_cycling", "在同级容器间循环焦点", "focus prev/next sibling", Priority::P1, test_sibling_focus_cycling);
    reg(harness, Category::Tiling, "cross_output_focus", "跨输出（显示器）移动焦点", "focus across outputs", Priority::P1, test_cross_output_focus);
    reg(harness, Category::Tiling, "focus_wrapping", "焦点到达边界时的环绕行为", "focus_wrapping", Priority::P1, test_focus_wrapping);
    reg(harness, Category::Tiling, "directional_move", "方向键移动窗口位置", "move left/right/up/down", Priority::P0, test_directional_move);
    reg(harness, Category::Tiling, "cross_container_move", "跨容器移动窗口", "move across containers", Priority::P0, test_cross_container_move);
    reg(harness, Category::Tiling, "resize_grow_shrink", "调整窗口大小（增大/缩小宽高）", "resize grow/shrink width/height", Priority::P0, test_resize_grow_shrink);
    reg(harness, Category::Tiling, "layout_toggle_cycling", "布局模式循环切换", "layout toggle split/all", Priority::P1, test_layout_toggle_cycling);
    reg(harness, Category::Tiling, "per_edge_outer_gaps", "各边独立的外间距设置", "gaps outer top/right/bottom/left", Priority::P1, test_per_edge_outer_gaps);
    reg(harness, Category::Tiling, "smart_gaps", "单窗口时自动隐藏间距", "smart_gaps on", Priority::P1, test_smart_gaps);
    reg_fn(harness, Category::Tiling, "normalize_sizes", "normalize_sizes 使尺寸总和为 1.0", "size normalization", Priority::P0, outer.normalize_sizes);
    reg(harness, Category::Tiling, "make_container_api", "make_container 创建 Tabbed 容器", "container creation API", Priority::P0, test_make_container_api);
    reg(harness, Category::Tiling, "tree_node_count", "tree.node_count() 正确计数", "tree node counting", Priority::P0, test_tree_node_count);
    reg(harness, Category::Tiling, "move_focus_at_boundary", "边界处 move_focus 返回 false", "focus boundary behavior", Priority::P0, test_move_focus_at_boundary);
    reg(harness, Category::Tiling, "fullscreen_flag_toggle", "全屏标志切换", "fullscreen geometry preservation", Priority::P0, test_fullscreen_flag_toggle);
    reg(harness, Category::Tiling, "mouse_drag_resize", "modifier+mouse 拖拽调整大小", "modifier+mouse resize", Priority::P0, test_mouse_drag_resize);
    assert(infos(harness.tests()) =~= infos(old(harness).tests()) + tiling_checks());
}

} // verus!
