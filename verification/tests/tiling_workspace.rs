use rway::tiling::workspace::{
    add_output, add_workspace, get_focused_workspace, get_workspaces, span_workspace_outputs,
    rename_workspace, switch_workspace,
};
use rway::tiling::commands;
use rway::tiling::container::{
    container_add_child, container_remove_child, get_focused_child, make_container,
    set_container_layout, set_focused_child,
};
use rway::tiling::layout::{compute_layout, get_window_geometries};
use rway::tiling::{GapsConfig, Layout};
use rway::tiling::{NodeData, Rect, Tree};

fn screen() -> Rect {
    Rect::new(0, 0, 1920, 1080)
}

fn second_screen() -> Rect {
    Rect::new(1920, 0, 2560, 1440)
}

// ── add_output ──────────────────────────────────────────

#[test]
fn add_output_creates_output_node() {
    let mut tree = Tree::new();
    let id = add_output(&mut tree, "eDP-1", screen());
    let node = tree.get(id).unwrap();
    assert!(matches!(node.data, NodeData::Output { .. }));
}

#[test]
fn add_output_sets_name_and_geometry() {
    let mut tree = Tree::new();
    let id = add_output(&mut tree, "HDMI-1", screen());
    if let NodeData::Output { name, geometry } = &tree.get(id).unwrap().data {
        assert_eq!(name, "HDMI-1");
        assert_eq!(*geometry, screen());
    } else {
        panic!();
    }
}

#[test]
fn add_output_is_child_of_root() {
    let mut tree = Tree::new();
    let id = add_output(&mut tree, "eDP-1", screen());
    assert_eq!(tree.parent(id), Some(tree.root()));
}

#[test]
fn add_multiple_outputs() {
    let mut tree = Tree::new();
    let o1 = add_output(&mut tree, "eDP-1", screen());
    let o2 = add_output(&mut tree, "HDMI-1", second_screen());
    let children = tree.children(tree.root());
    assert!(children.contains(&o1));
    assert!(children.contains(&o2));
}

// ── add_workspace ───────────────────────────────────────

#[test]
fn add_workspace_creates_workspace_node() {
    let mut tree = Tree::new();
    let out = add_output(&mut tree, "eDP-1", screen());
    let ws = add_workspace(&mut tree, out, "1");
    assert!(matches!(
        tree.get(ws).unwrap().data,
        NodeData::Workspace { .. }
    ));
}

#[test]
fn add_workspace_sets_name_and_visible() {
    let mut tree = Tree::new();
    let out = add_output(&mut tree, "eDP-1", screen());
    let ws = add_workspace(&mut tree, out, "work");
    if let NodeData::Workspace {
        name, is_visible, ..
    } = &tree.get(ws).unwrap().data
    {
        assert_eq!(name, "work");
        assert!(*is_visible);
    } else {
        panic!();
    }
}

#[test]
fn add_workspace_deduplicates_same_name() {
    let mut tree = Tree::new();
    let out = add_output(&mut tree, "eDP-1", screen());
    let ws1 = add_workspace(&mut tree, out, "1");
    let ws2 = add_workspace(&mut tree, out, "1");
    assert_eq!(ws1, ws2);
    assert_eq!(tree.children(out).len(), 1);
}

#[test]
fn add_workspace_different_names() {
    let mut tree = Tree::new();
    let out = add_output(&mut tree, "eDP-1", screen());
    let ws1 = add_workspace(&mut tree, out, "1");
    let ws2 = add_workspace(&mut tree, out, "2");
    assert_ne!(ws1, ws2);
    assert_eq!(tree.children(out).len(), 2);
}

// ── get_focused_workspace ───────────────────────────────

#[test]
fn get_focused_workspace_returns_visible() {
    let mut tree = Tree::new();
    let out = add_output(&mut tree, "eDP-1", screen());
    let ws = add_workspace(&mut tree, out, "1");
    let focused = get_focused_workspace(&tree);
    assert_eq!(focused, Some(ws));
}

#[test]
fn get_focused_workspace_returns_none_when_empty() {
    let tree = Tree::new();
    assert!(get_focused_workspace(&tree).is_none());
}

#[test]
fn get_focused_workspace_returns_none_when_all_hidden() {
    let mut tree = Tree::new();
    let out = add_output(&mut tree, "eDP-1", screen());
    let ws = add_workspace(&mut tree, out, "1");

    // 手动隐藏
    if let Some(node) = tree.get_mut(ws) {
        if let NodeData::Workspace {
            ref mut is_visible, ..
        } = node.data
        {
            *is_visible = false;
        }
    }

    assert!(get_focused_workspace(&tree).is_none());
}

// ── switch_workspace ────────────────────────────────────

#[test]
fn switch_workspace_makes_target_visible() {
    let mut tree = Tree::new();
    let out = add_output(&mut tree, "eDP-1", screen());
    let _ws1 = add_workspace(&mut tree, out, "1");
    let ws2 = add_workspace(&mut tree, out, "2");

    // 手动隐藏 ws2
    if let Some(n) = tree.get_mut(ws2) {
        if let NodeData::Workspace {
            ref mut is_visible, ..
        } = n.data
        {
            *is_visible = false;
        }
    }

    let ok = switch_workspace(&mut tree, "2");
    assert!(ok);

    if let Some(n) = tree.get(ws2) {
        if let NodeData::Workspace { is_visible, .. } = &n.data {
            assert!(*is_visible);
        }
    }
}

#[test]
fn switch_workspace_hides_other_workspaces_on_same_output() {
    let mut tree = Tree::new();
    let out = add_output(&mut tree, "eDP-1", screen());
    let ws1 = add_workspace(&mut tree, out, "1");
    let ws2 = add_workspace(&mut tree, out, "2");

    // 初始状态 ws1, ws2 都可见；切换到 ws2 后 ws1 应隐藏
    switch_workspace(&mut tree, "2");

    let ws_list = get_workspaces(&tree);
    let vis: Vec<(String, bool)> = ws_list.into_iter().map(|(_, n, v)| (n, v)).collect();

    assert!(vis.contains(&("2".into(), true)));
    assert!(vis.contains(&("1".into(), false)));
    let _ = (ws1, ws2);
}

#[test]
fn switch_workspace_returns_false_for_nonexistent() {
    let mut tree = Tree::new();
    let _ = add_output(&mut tree, "eDP-1", screen());
    let ok = switch_workspace(&mut tree, "nonexistent");
    assert!(!ok);
}

#[test]
fn switch_workspace_does_not_affect_other_outputs() {
    let mut tree = Tree::new();
    let out1 = add_output(&mut tree, "eDP-1", screen());
    let out2 = add_output(&mut tree, "HDMI-1", second_screen());

    let _ws1 = add_workspace(&mut tree, out1, "1");
    let ws_other = add_workspace(&mut tree, out2, "other");

    switch_workspace(&mut tree, "1");

    // out2 上的工作区可见性不受影响
    if let Some(n) = tree.get(ws_other) {
        if let NodeData::Workspace { is_visible, .. } = &n.data {
            assert!(*is_visible, "另一个输出上的工作区不应被隐藏");
        }
    }
}

// ── get_workspaces ──────────────────────────────────────

#[test]
fn get_workspaces_returns_all() {
    let mut tree = Tree::new();
    let out = add_output(&mut tree, "eDP-1", screen());
    add_workspace(&mut tree, out, "1");
    add_workspace(&mut tree, out, "2");
    add_workspace(&mut tree, out, "3");

    let ws_list = get_workspaces(&tree);
    assert_eq!(ws_list.len(), 3);
}

#[test]
fn get_workspaces_empty_when_no_outputs() {
    let tree = Tree::new();
    assert!(get_workspaces(&tree).is_empty());
}

#[test]
fn get_workspaces_empty_when_no_workspaces() {
    let mut tree = Tree::new();
    let _ = add_output(&mut tree, "eDP-1", screen());
    assert!(get_workspaces(&tree).is_empty());
}

#[test]
fn get_workspaces_across_multiple_outputs() {
    let mut tree = Tree::new();
    let out1 = add_output(&mut tree, "eDP-1", screen());
    let out2 = add_output(&mut tree, "HDMI-1", second_screen());
    add_workspace(&mut tree, out1, "1");
    add_workspace(&mut tree, out2, "2");

    let ws_list = get_workspaces(&tree);
    assert_eq!(ws_list.len(), 2);
    let names: Vec<String> = ws_list.into_iter().map(|(_, n, _)| n).collect();
    assert!(names.contains(&"1".to_string()));
    assert!(names.contains(&"2".to_string()));
}

// ── span_workspace_outputs ──────────────────────────────

#[test]
fn span_workspace_adds_to_extra_output() {
    let mut tree = Tree::new();
    let out1 = add_output(&mut tree, "eDP-1", screen());
    let out2 = add_output(&mut tree, "HDMI-1", second_screen());
    let ws = add_workspace(&mut tree, out1, "shared");

    let ok = span_workspace_outputs(&mut tree, ws, &[out2]);
    assert!(ok);

    // out2 下应有同名工作区
    let names: Vec<String> = tree
        .children(out2)
        .iter()
        .filter_map(|&id| {
            if let NodeData::Workspace { name, .. } = &tree.get(id)?.data {
                Some(name.clone())
            } else {
                None
            }
        })
        .collect();
    assert!(names.contains(&"shared".to_string()));
}

#[test]
fn span_workspace_skips_same_output() {
    let mut tree = Tree::new();
    let out1 = add_output(&mut tree, "eDP-1", screen());
    let ws = add_workspace(&mut tree, out1, "1");

    let before = tree.children(out1).len();
    let ok = span_workspace_outputs(&mut tree, ws, &[out1]);
    // 同一输出不算成功添加
    assert!(!ok);
    assert_eq!(tree.children(out1).len(), before);
}

#[test]
fn span_workspace_skips_non_output_node() {
    let mut tree = Tree::new();
    let out1 = add_output(&mut tree, "eDP-1", screen());
    let ws = add_workspace(&mut tree, out1, "1");

    // ws 不是 Output 节点
    let ok = span_workspace_outputs(&mut tree, ws, &[ws]);
    assert!(!ok);
}

#[test]
fn span_workspace_no_duplicate_on_same_span_twice() {
    let mut tree = Tree::new();
    let out1 = add_output(&mut tree, "eDP-1", screen());
    let out2 = add_output(&mut tree, "HDMI-1", second_screen());
    let ws = add_workspace(&mut tree, out1, "shared");

    span_workspace_outputs(&mut tree, ws, &[out2]);
    span_workspace_outputs(&mut tree, ws, &[out2]); // 再次调用

    let count = tree
        .children(out2)
        .iter()
        .filter(|&&id| {
            tree.get(id)
                .map(|n| matches!(n.data, NodeData::Workspace { .. }))
                .unwrap_or(false)
        })
        .count();
    assert_eq!(count, 1);
}

#[test]
fn rename_workspace_renames_first_match() {
    let mut tree = Tree::new();
    let out = add_output(&mut tree, "eDP-1", screen());
    let ws = add_workspace(&mut tree, out, "1");
    assert!(rename_workspace(&mut tree, "1", "mail"));
    assert!(!rename_workspace(&mut tree, "1", "again"));
    if let NodeData::Workspace { name, .. } = &tree.get(ws).unwrap().data {
        assert_eq!(name, "mail");
    } else {
        panic!("not a workspace");
    }
}

#[test]
fn container_helpers_follow_the_tree() {
    let mut tree = Tree::new();
    let out = add_output(&mut tree, "eDP-1", screen());
    let ws = add_workspace(&mut tree, out, "1");
    let c = tree.add_node(ws, make_container(Layout::SplitH));
    let a = tree.add_node(c, NodeData::Window {
        window_id: 1,
        floating: false,
        fullscreen: false,
        fullscreen_global: false,
        sticky: false,
        marks: Vec::new(),
        geometry: Rect::new(0, 0, 0, 0),
        saved_geometry: None,
    });
    assert_eq!(get_focused_child(&tree, c), Some(a));
    assert_eq!(get_focused_child(&tree, ws), None);
    container_add_child(&mut tree, c);
    container_remove_child(&mut tree, c, 0);
    set_container_layout(&mut tree, c, Layout::Tabbed);
    match &tree.get(c).unwrap().data {
        NodeData::Container { layout, sizes, .. } => {
            assert_eq!(*layout, Layout::Tabbed);
            assert_eq!(sizes, &vec![100, 100]);
        }
        _ => panic!("not a container"),
    }
    assert!(set_focused_child(&mut tree, c, a));
    assert!(!set_focused_child(&mut tree, c, ws));
}

#[test]
fn command_functions_act_on_the_tree() {
    let mut tree = Tree::new();
    let out = add_output(&mut tree, "eDP-1", screen());
    add_workspace(&mut tree, out, "1");
    commands::insert_window(&mut tree, 10);
    commands::insert_window(&mut tree, 11);
    assert_eq!(commands::find_focused_window_id(&tree), Some(11));
    assert!(commands::toggle_floating(&mut tree, 10));
    assert!(commands::add_mark(&mut tree, 10, "m"));
    assert_eq!(commands::get_marks(&tree, 10), vec!["m".to_string()]);
    assert!(commands::remove_window(&mut tree, 11));
    assert!(!commands::remove_window(&mut tree, 11));
    let root = tree.root();
    compute_layout(&mut tree, root, screen(), &GapsConfig::default());
    let geoms = get_window_geometries(&tree);
    assert_eq!(geoms.len(), 1);
    assert_eq!(geoms[0].0, 10);
}

#[test]
fn renaming_to_an_unused_name_and_back_gives_the_workspaces_back() {
    let mut tree = Tree::new();
    let out = add_output(&mut tree, "eDP-1", screen());
    add_workspace(&mut tree, out, "1");
    add_workspace(&mut tree, out, "2");
    let before = format!("{:?}", get_workspaces(&tree));
    assert!(rename_workspace(&mut tree, "1", "mail"));
    assert_ne!(format!("{:?}", get_workspaces(&tree)), before);
    assert!(rename_workspace(&mut tree, "mail", "1"));
    assert_eq!(format!("{:?}", get_workspaces(&tree)), before);
}
