use std::collections::HashSet;
use rway::tiling::{Direction, GapsConfig, Layout, NodeData, NodeId, Rect, ResizeAxis, Tree};
use rway::tiling::tree::shrink_rect;

fn sample_rect() -> Rect {
    Rect::new(0, 0, 1920, 1080)
}

fn output_data(name: &str) -> NodeData {
    NodeData::Output { name: name.to_string(), geometry: sample_rect() }
}

fn window_data(id: u64) -> NodeData {
    NodeData::Window {
        window_id: id,
        floating: false,
        fullscreen: false,
        fullscreen_global: false,
        sticky: false,
        marks: Vec::new(),
        geometry: Rect::new(0, 0, 0, 0),
        saved_geometry: None,
    }
}

fn container_data(layout: Layout) -> NodeData {
    NodeData::Container { layout, sizes: Vec::new(), focused_child: 0 }
}

#[test]
fn rect_new_stores_fields() {
    let r = Rect::new(10, 20, 800, 600);
    assert_eq!(r.x, 10);
    assert_eq!(r.y, 20);
    assert_eq!(r.width, 800);
    assert_eq!(r.height, 600);
}

#[test]
fn rect_is_valid_positive_dimensions() {
    assert!(Rect::new(0, 0, 1, 1).is_valid());
    assert!(Rect::new(-100, -100, 800, 600).is_valid());
}

#[test]
fn rect_is_invalid_zero_width() {
    assert!(!Rect::new(0, 0, 0, 600).is_valid());
}

#[test]
fn rect_is_invalid_zero_height() {
    assert!(!Rect::new(0, 0, 800, 0).is_valid());
}

#[test]
fn rect_is_invalid_negative_dimensions() {
    assert!(!Rect::new(0, 0, -1, 600).is_valid());
    assert!(!Rect::new(0, 0, 800, -1).is_valid());
}

#[test]
fn rect_equality() {
    let a = Rect::new(0, 0, 100, 100);
    let b = Rect::new(0, 0, 100, 100);
    assert_eq!(a, b);
}

#[test]
fn tree_new_has_root() {
    let tree = Tree::new();
    let root = tree.root();
    assert!(tree.get(root).is_some());
}

#[test]
fn tree_new_root_is_root_data() {
    let tree = Tree::new();
    let node = tree.get(tree.root()).unwrap();
    assert!(matches!(node.data, NodeData::Root));
}

#[test]
fn tree_new_root_has_no_parent() {
    let tree = Tree::new();
    assert!(tree.parent(tree.root()).is_none());
}

#[test]
fn tree_new_root_has_no_children() {
    let tree = Tree::new();
    assert!(tree.children(tree.root()).is_empty());
}

#[test]
fn tree_new_node_count_is_one() {
    let tree = Tree::new();
    assert_eq!(tree.node_count(), 1);
}

#[test]
fn add_node_returns_valid_id() {
    let mut tree = Tree::new();
    let root = tree.root();
    let child = tree.add_node(root, output_data("eDP-1"));
    assert!(tree.get(child).is_some());
}

#[test]
fn add_node_parent_has_child() {
    let mut tree = Tree::new();
    let root = tree.root();
    let child = tree.add_node(root, output_data("eDP-1"));
    assert!(tree.children(root).contains(&child));
}

#[test]
fn add_node_child_has_parent() {
    let mut tree = Tree::new();
    let root = tree.root();
    let child = tree.add_node(root, output_data("eDP-1"));
    assert_eq!(tree.parent(child), Some(root));
}

#[test]
fn add_node_increments_count() {
    let mut tree = Tree::new();
    let root = tree.root();
    tree.add_node(root, output_data("eDP-1"));
    assert_eq!(tree.node_count(), 2);
}

#[test]
fn add_multiple_children() {
    let mut tree = Tree::new();
    let root = tree.root();
    let c1 = tree.add_node(root, output_data("eDP-1"));
    let c2 = tree.add_node(root, output_data("HDMI-1"));
    let children = tree.children(root);
    assert!(children.contains(&c1));
    assert!(children.contains(&c2));
    assert_eq!(children.len(), 2);
}

#[test]
fn add_nested_nodes() {
    let mut tree = Tree::new();
    let root = tree.root();
    let output = tree.add_node(root, output_data("eDP-1"));
    let ws = tree.add_node(
        output,
        NodeData::Workspace {
            name: "1".into(),
            output,
            is_visible: true,
        },
    );
    let win = tree.add_node(ws, window_data(42));

    assert_eq!(tree.parent(win), Some(ws));
    assert_eq!(tree.parent(ws), Some(output));
    assert_eq!(tree.parent(output), Some(root));
}

#[test]
fn remove_node_leaf_decrements_count() {
    let mut tree = Tree::new();
    let root = tree.root();
    let child = tree.add_node(root, output_data("eDP-1"));
    tree.remove_node(child);
    assert_eq!(tree.node_count(), 1);
}

#[test]
fn remove_node_leaf_not_found_after_removal() {
    let mut tree = Tree::new();
    let root = tree.root();
    let child = tree.add_node(root, output_data("eDP-1"));
    tree.remove_node(child);
    assert!(tree.get(child).is_none());
}

#[test]
fn remove_node_removed_from_parent_children() {
    let mut tree = Tree::new();
    let root = tree.root();
    let child = tree.add_node(root, output_data("eDP-1"));
    tree.remove_node(child);
    assert!(!tree.children(root).contains(&child));
}

#[test]
fn remove_node_also_removes_descendants() {
    let mut tree = Tree::new();
    let root = tree.root();
    let output = tree.add_node(root, output_data("eDP-1"));
    let ws = tree.add_node(
        output,
        NodeData::Workspace {
            name: "1".into(),
            output,
            is_visible: true,
        },
    );
    let win = tree.add_node(ws, window_data(1));

    tree.remove_node(output);

    assert!(tree.get(output).is_none());
    assert!(tree.get(ws).is_none());
    assert!(tree.get(win).is_none());
    assert_eq!(tree.node_count(), 1); // 只剩 root
}

#[test]
fn remove_node_recycles_slot_for_new_node() {
    let mut tree = Tree::new();
    let root = tree.root();
    let child = tree.add_node(root, output_data("eDP-1"));
    let child_idx = child.0;
    tree.remove_node(child);

    // 新添加的节点应复用已释放的槽位
    let new_child = tree.add_node(root, output_data("HDMI-1"));
    assert_eq!(new_child.0, child_idx);
}

#[test]
fn remove_node_sibling_remains() {
    let mut tree = Tree::new();
    let root = tree.root();
    let c1 = tree.add_node(root, output_data("eDP-1"));
    let c2 = tree.add_node(root, output_data("HDMI-1"));
    tree.remove_node(c1);
    assert!(tree.get(c2).is_some());
    assert!(tree.children(root).contains(&c2));
}

#[test]
fn get_returns_none_for_invalid_id() {
    let tree = Tree::new();
    assert!(tree.get(NodeId(999)).is_none());
}

#[test]
fn get_mut_modifies_node() {
    let mut tree = Tree::new();
    let root = tree.root();
    let child = tree.add_node(root, window_data(1));

    if let Some(node) = tree.get_mut(child) {
        if let NodeData::Window {
            ref mut floating, ..
        } = node.data
        {
            *floating = true;
        }
    }

    if let Some(node) = tree.get(child) {
        if let NodeData::Window { floating, .. } = node.data {
            assert!(floating);
        } else {
            panic!("节点数据类型错误");
        }
    }
}

#[test]
fn children_returns_empty_for_invalid_id() {
    let tree = Tree::new();
    assert!(tree.children(NodeId(999)).is_empty());
}

#[test]
fn parent_returns_none_for_invalid_id() {
    let tree = Tree::new();
    assert!(tree.parent(NodeId(999)).is_none());
}

#[test]
fn node_data_container_clone() {
    let data = container_data(Layout::SplitH);
    let cloned = data.clone();
    assert!(matches!(
        cloned,
        NodeData::Container {
            layout: Layout::SplitH,
            ..
        }
    ));
}

#[test]
fn layout_equality() {
    assert_eq!(Layout::SplitH, Layout::SplitH);
    assert_ne!(Layout::SplitH, Layout::SplitV);
}

#[test]
fn node_id_equality() {
    assert_eq!(NodeId(0), NodeId(0));
    assert_ne!(NodeId(0), NodeId(1));
}

#[test]
fn node_id_in_hashset() {
    let mut set = HashSet::new();
    set.insert(NodeId(0));
    set.insert(NodeId(1));
    set.insert(NodeId(0)); // 重复
    assert_eq!(set.len(), 2);
}

#[test]
fn add_many_nodes_and_remove_all() {
    let mut tree = Tree::new();
    let root = tree.root();
    let mut ids = Vec::new();
    for i in 0..1000u64 {
        ids.push(tree.add_node(root, window_data(i)));
    }
    assert_eq!(tree.node_count(), 1001);

    for id in &ids {
        tree.remove_node(*id);
    }
    assert_eq!(tree.node_count(), 1);
}

#[test]
fn free_list_reuse_across_many_cycles() {
    let mut tree = Tree::new();
    let root = tree.root();

    // 添加 → 删除 → 再添加，验证复用
    for cycle in 0..10u64 {
        let id = tree.add_node(root, window_data(cycle));
        tree.remove_node(id);
    }
    // 最终只剩 root
    assert_eq!(tree.node_count(), 1);
}

fn make_ws_tree() -> Tree {
    let mut tree = Tree::new();
    let root = tree.root();
    let out = tree.add_node(root, output_data("eDP-1"));
    tree.add_node(out, NodeData::Workspace { name: "1".into(), output: out, is_visible: true });
    tree
}

fn split_container(layout: Layout) -> NodeData {
    NodeData::Container { layout, sizes: vec![100, 100], focused_child: 0 }
}

#[test]
fn three_windows_same_direction_are_siblings() {
    let mut tree = make_ws_tree();
    tree.insert_window(1);
    tree.insert_window(2);
    tree.insert_window(3);
    let ws = tree.focused_workspace().unwrap();
    let container_id = tree.children(ws)[0];
    let siblings = tree.children(container_id);
    assert_eq!(siblings.len(), 3, "3 windows should be siblings, not nested");
}

#[test]
fn three_siblings_get_equal_layout() {
    let mut tree = make_ws_tree();
    tree.insert_window(1);
    tree.insert_window(2);
    tree.insert_window(3);
    let root = tree.root();
    tree.compute_layout(root, sample_rect(), &GapsConfig::default());
    let geoms = tree.window_geometries();
    assert_eq!(geoms.len(), 3);
    for (_, g) in &geoms {
        assert!(g.width > 600 && g.width < 700, "each window should be ~640px wide, got {}", g.width);
    }
}

#[test]
fn remove_window_siblings_redistribute_equally() {
    let mut tree = make_ws_tree();
    tree.insert_window(1);
    tree.insert_window(2);
    tree.insert_window(3);
    tree.remove_window(2);
    let root = tree.root();
    tree.compute_layout(root, sample_rect(), &GapsConfig::default());
    let geoms = tree.window_geometries();
    assert_eq!(geoms.len(), 2);
    for (_, g) in &geoms {
        assert_eq!(g.width, 960, "after removing one, each should get half");
    }
}

#[test]
fn wrap_container_preserves_position() {
    let mut tree = make_ws_tree();
    tree.insert_window(1);
    tree.insert_window(2);
    tree.insert_window(3);
    let ws = tree.focused_workspace().unwrap();
    let container = tree.children(ws)[0];
    if let Some(node) = tree.get_mut(container) {
        if let NodeData::Container { ref mut focused_child, .. } = node.data {
            *focused_child = 1;
        }
    }
    tree.insert_window_with_layout(4, Layout::SplitV);
    let top_children = tree.children(container).to_vec();
    assert_eq!(top_children.len(), 3, "top container should have 3 children");
    let middle = top_children[1];
    assert!(
        matches!(tree.get(middle).map(|n| &n.data), Some(NodeData::Container { layout: Layout::SplitV, .. })),
        "middle child should be a SplitV container"
    );
    let first = top_children[0];
    assert!(
        matches!(tree.get(first).map(|n| &n.data), Some(NodeData::Window { window_id: 1, .. })),
        "first child should be window A"
    );
    let last = top_children[2];
    assert!(
        matches!(tree.get(last).map(|n| &n.data), Some(NodeData::Window { window_id: 3, .. })),
        "last child should be window C"
    );
}

#[test]
fn move_down_swaps_within_column_only() {
    let mut tree = Tree::new();
    let root = tree.root();
    let out = tree.add_node(root, output_data("eDP-1"));
    let ws = tree.add_node(out, NodeData::Workspace { name: "1".into(), output: out, is_visible: true });
    let splith = tree.add_node(ws, split_container(Layout::SplitH));
    let col1 = tree.add_node(splith, split_container(Layout::SplitV));
    let col2 = tree.add_node(splith, split_container(Layout::SplitV));
    let a = tree.add_node(col1, window_data(1));
    let c = tree.add_node(col1, window_data(3));
    let b = tree.add_node(col2, window_data(2));
    let d = tree.add_node(col2, window_data(4));
    let moved = tree.move_window(Direction::Down);
    assert!(moved, "move down should succeed");
    let col1_children = tree.children(col1);
    assert_eq!(col1_children[0], c, "C should be first after move down");
    assert_eq!(col1_children[1], a, "A should be second after move down");
    let col2_children = tree.children(col2);
    assert_eq!(col2_children[0], b, "B should still be first");
    assert_eq!(col2_children[1], d, "D should still be second");
}

#[test]
fn move_right_swaps_columns_not_rows() {
    let mut tree = Tree::new();
    let root = tree.root();
    let out = tree.add_node(root, output_data("eDP-1"));
    let ws = tree.add_node(out, NodeData::Workspace { name: "1".into(), output: out, is_visible: true });
    let splith = tree.add_node(ws, split_container(Layout::SplitH));
    let col1 = tree.add_node(splith, split_container(Layout::SplitV));
    let col2 = tree.add_node(splith, split_container(Layout::SplitV));
    tree.add_node(col1, window_data(1));
    tree.add_node(col1, window_data(3));
    tree.add_node(col2, window_data(2));
    tree.add_node(col2, window_data(4));
    let moved = tree.move_window(Direction::Right);
    assert!(moved);
    let h_children = tree.children(splith);
    assert_eq!(h_children[0], col2, "col2 should now be first (left)");
    assert_eq!(h_children[1], col1, "col1 should now be second (right)");
}

#[test]
fn different_split_direction_creates_nesting() {
    let mut tree = make_ws_tree();
    tree.insert_window(1);
    tree.insert_window(2);
    tree.insert_window_with_layout(3, Layout::SplitV);
    let ws = tree.focused_workspace().unwrap();
    let top_container = tree.children(ws)[0];
    let top_children = tree.children(top_container).to_vec();
    assert_eq!(top_children.len(), 2, "top level should still have 2 children");
    let nested = top_children.iter().find(|&&id| {
        tree.get(id)
            .map(|n| matches!(n.data, NodeData::Container { layout: Layout::SplitV, .. }))
            .unwrap_or(false)
    });
    assert!(nested.is_some(), "should have a nested SplitV container");
}

#[test]
fn shrink_rect_by_zero_is_identity() {
    let r = Rect::new(5, 6, 100, 50);
    assert_eq!(shrink_rect(r, 0), r);
}

#[test]
fn shrink_rect_keeps_dimensions_positive() {
    let r = Rect::new(0, 0, 10, 10);
    assert_eq!(shrink_rect(r, 3), Rect::new(3, 3, 4, 4));
    assert_eq!(shrink_rect(r, 8), Rect::new(8, 8, 1, 1));
}

#[test]
fn layout_applies_outer_and_inner_gaps() {
    let mut tree = make_ws_tree();
    tree.insert_window(1);
    tree.insert_window(2);
    let gaps = GapsConfig { inner: 10, outer: 20 };
    tree.compute_layout(tree.root(), sample_rect(), &gaps);
    let geoms = tree.window_geometries();
    // workspace area: (20, 20, 1880, 1040); halves of 940, each shrunk by 5
    assert_eq!(geoms, vec![(1, Rect::new(25, 25, 930, 1030)), (2, Rect::new(965, 25, 930, 1030))]);
}

#[test]
fn layout_split_last_child_takes_remainder() {
    let mut tree = make_ws_tree();
    tree.insert_window(1);
    tree.insert_window(2);
    tree.insert_window(3);
    let ws = tree.focused_workspace().unwrap();
    tree.compute_layout(ws, Rect::new(0, 0, 1000, 500), &GapsConfig::default());
    let geoms = tree.window_geometries();
    let widths: Vec<i32> = geoms.iter().map(|(_, g)| g.width).collect();
    assert_eq!(widths, vec![333, 333, 334]);
    assert_eq!(geoms[2].1.x, 666);
}

#[test]
fn layout_follows_weights() {
    let mut tree = make_ws_tree();
    let ws = tree.focused_workspace().unwrap();
    let c = tree.add_node(ws, NodeData::Container { layout: Layout::SplitV, sizes: vec![300, 100], focused_child: 0 });
    tree.add_node(c, window_data(7));
    tree.add_node(c, window_data(8));
    tree.compute_layout(ws, Rect::new(0, 0, 800, 800), &GapsConfig::default());
    let geoms = tree.window_geometries();
    assert_eq!(geoms, vec![(7, Rect::new(0, 0, 800, 600)), (8, Rect::new(0, 600, 800, 200))]);
}

#[test]
fn layout_tabbed_gives_focused_child_whole_area() {
    let mut tree = make_ws_tree();
    let ws = tree.focused_workspace().unwrap();
    let c = tree.add_node(ws, NodeData::Container { layout: Layout::Tabbed, sizes: vec![100, 100], focused_child: 1 });
    tree.add_node(c, window_data(1));
    tree.add_node(c, window_data(2));
    tree.compute_layout(tree.root(), sample_rect(), &GapsConfig::default());
    let geoms = tree.window_geometries();
    assert_eq!(geoms, vec![(1, Rect::new(0, 0, 0, 0)), (2, sample_rect())]);
}

#[test]
fn move_focus_steps_within_split() {
    let mut tree = make_ws_tree();
    tree.insert_window(1);
    tree.insert_window(2);
    assert_eq!(tree.focused_window_id(), Some(2));
    assert!(tree.move_focus(Direction::Left));
    assert_eq!(tree.focused_window_id(), Some(1));
    assert!(!tree.move_focus(Direction::Left));
    assert!(!tree.move_focus(Direction::Up));
    assert!(tree.move_focus(Direction::Right));
    assert_eq!(tree.focused_window_id(), Some(2));
}

#[test]
fn focus_parent_and_child_walk_levels() {
    let mut tree = make_ws_tree();
    tree.insert_window(1);
    tree.insert_window(2);
    let ws = tree.focused_workspace().unwrap();
    let container = tree.children(ws)[0];
    assert!(tree.focus_parent());
    assert_eq!(tree.focus_node, Some(container));
    assert!(tree.focus_parent());
    assert_eq!(tree.focus_node, Some(ws));
    assert!(tree.focus_child());
    assert_eq!(tree.focus_node, Some(container));
    assert!(tree.focus_child());
    assert_eq!(tree.focus_node, None);
    assert!(!tree.focus_child());
}

#[test]
fn resize_moves_weight_between_siblings() {
    let mut tree = make_ws_tree();
    tree.insert_window(1);
    tree.insert_window(2);
    let ws = tree.focused_workspace().unwrap();
    let container = tree.children(ws)[0];
    let first = tree.children(container)[0];
    assert!(tree.resize_container(first, ResizeAxis::Width, 20));
    match &tree.get(container).unwrap().data {
        NodeData::Container { sizes, .. } => assert_eq!(sizes, &vec![120, 80]),
        _ => panic!("not a container"),
    }
    assert!(!tree.resize_container(first, ResizeAxis::Height, 20));
    assert!(tree.resize_container(first, ResizeAxis::Width, 500));
    match &tree.get(container).unwrap().data {
        NodeData::Container { sizes, .. } => assert_eq!(sizes, &vec![195, 5]),
        _ => panic!("not a container"),
    }
}

#[test]
fn move_to_workspace_moves_focused_window() {
    let mut tree = make_ws_tree();
    let out = tree.children(tree.root())[0];
    tree.add_node(out, NodeData::Workspace { name: "2".into(), output: out, is_visible: false });
    tree.insert_window(1);
    tree.insert_window(2);
    assert!(tree.move_to_workspace("2"));
    assert_eq!(tree.focused_window_id(), Some(1));
    assert!(tree.find_node_by_window_id(2).is_some());
    assert!(!tree.move_to_workspace("nope"));
}

#[test]
fn default_tree_is_new_tree() {
    let t = Tree::default();
    assert_eq!(t.node_count(), 1);
    assert!(t.children(t.root()).is_empty());
}

fn window_slots(tree: &Tree) -> Vec<(usize, String)> {
    let mut out = Vec::new();
    for k in 0..64 {
        if let Some(n) = tree.get(NodeId(k)) {
            if let NodeData::Window { .. } = n.data {
                out.push((k, format!("{:?}", n.data)));
            }
        }
    }
    out
}

#[test]
fn remove_after_insert_gives_back_the_windows() {
    let mut tree = make_ws_tree();
    tree.insert_window(1);
    tree.insert_window(2);
    let before = window_slots(&tree);
    assert_eq!(before.len(), 2);
    tree.insert_window(3);
    assert_eq!(window_slots(&tree).len(), 3);
    assert!(tree.remove_window(3));
    assert_eq!(window_slots(&tree), before);
}

#[test]
fn remove_mark_undoes_add_mark() {
    let mut tree = make_ws_tree();
    tree.insert_window(1);
    tree.insert_window(2);
    assert!(tree.add_mark(1, "x"));
    let before = window_slots(&tree);
    assert!(tree.add_mark(1, "y"));
    assert_eq!(tree.get_marks(1), vec!["x".to_string(), "y".to_string()]);
    assert!(tree.remove_mark(1, Some("y")));
    assert_eq!(tree.get_marks(1), vec!["x".to_string()]);
    assert_eq!(window_slots(&tree), before);
}

#[test]
fn swapping_siblings_twice_gives_the_tree_back() {
    let mut tree = make_ws_tree();
    tree.insert_window(1);
    tree.insert_window(2);
    tree.insert_window(3);
    let slots = window_slots(&tree);
    let a = NodeId(slots[0].0);
    let b = NodeId(slots[2].0);
    let p = tree.parent(a).unwrap();
    assert_eq!(tree.parent(b), Some(p));
    let kids = tree.children(p).to_vec();
    let pdata = format!("{:?}", tree.get(p).unwrap().data);
    assert!(tree.swap_containers(a, b));
    assert_ne!(tree.children(p).to_vec(), kids);
    assert!(tree.swap_containers(a, b));
    assert_eq!(tree.children(p).to_vec(), kids);
    assert_eq!(format!("{:?}", tree.get(p).unwrap().data), pdata);
    assert_eq!(window_slots(&tree), slots);
}

#[test]
fn move_left_in_tabbed_reorders() {
    let mut tree = make_ws_tree();
    tree.insert_window(1);
    tree.insert_window(2);
    let ws = tree.focused_workspace().unwrap();
    let c = tree.children(ws)[0];
    tree.set_layout(c, Layout::Tabbed).unwrap();
    assert!(tree.move_window(Direction::Left));
    let ids: Vec<u64> = tree
        .children(c)
        .iter()
        .filter_map(|&id| match &tree.get(id)?.data {
            NodeData::Window { window_id, .. } => Some(*window_id),
            _ => None,
        })
        .collect();
    assert_eq!(ids, vec![2, 1]);
}

#[test]
fn move_up_in_stacked_reorders() {
    let mut tree = make_ws_tree();
    tree.insert_window(1);
    tree.insert_window(2);
    let ws = tree.focused_workspace().unwrap();
    let c = tree.children(ws)[0];
    tree.set_layout(c, Layout::Stacked).unwrap();
    assert!(tree.move_window(Direction::Up));
    assert!(!tree.move_window(Direction::Left));
}

#[test]
fn insert_after_focused_not_at_end() {
    let mut tree = make_ws_tree();
    tree.insert_window(1);
    tree.insert_window(2);
    tree.insert_window(3);
    let ws = tree.focused_workspace().unwrap();
    let c = tree.children(ws)[0];
    let n2 = tree.find_node_by_window_id(2).unwrap();
    tree.set_focused_child(c, n2).unwrap();
    tree.insert_window(4);
    let ids: Vec<u64> = tree
        .children(c)
        .iter()
        .filter_map(|&id| match &tree.get(id)?.data {
            NodeData::Window { window_id, .. } => Some(*window_id),
            _ => None,
        })
        .collect();
    assert_eq!(ids, vec![1, 2, 4, 3]);
    assert_eq!(tree.focused_window_id(), Some(4));
}
